use crate::breakpoint::{key_less, lemma_key_order, Breakpoint, BreakpointView};
use vstd::prelude::*;

verus! {

/// Offsets never decrease along `s`.
pub open spec fn ordered(s: Seq<BreakpointView>) -> bool {
    forall|i: int, j: int| 0 <= i <= j < s.len() ==> s[i].timepoint <= s[j].timepoint
}

/// `s` follows the order of markers ([`key_less`]): by offset, then by hint.
pub open spec fn sorted(s: Seq<BreakpointView>) -> bool {
    forall|i: int, j: int| 0 <= i <= j < s.len() ==> !key_less(#[trigger] s[j], #[trigger] s[i])
}

/// Markers in their order have offsets that never decrease.
pub proof fn lemma_sorted_ordered(s: Seq<BreakpointView>)
    requires
        sorted(s),
    ensures
        ordered(s),
{
    assert forall|i: int, j: int| 0 <= i <= j < s.len() implies s[i].timepoint
        <= s[j].timepoint by {
        assert(!key_less(s[j], s[i]));
    }
}

/// `k` parts `s` into the markers that come before `b` and the others.
pub open spec fn is_key_split(s: Seq<BreakpointView>, b: BreakpointView, k: int) -> bool {
    &&& 0 <= k <= s.len()
    &&& forall|j: int| 0 <= j < k ==> key_less(#[trigger] s[j], b)
    &&& forall|j: int| k <= j < s.len() ==> !key_less(#[trigger] s[j], b)
}

/// The index that parts `s` at `b` (see [`is_key_split`]).
pub open spec fn key_split_point(s: Seq<BreakpointView>, b: BreakpointView) -> int {
    choose|k: int| is_key_split(s, b, k)
}

pub proof fn lemma_key_split_unique(s: Seq<BreakpointView>, b: BreakpointView, k: int)
    requires
        is_key_split(s, b, k),
    ensures
        key_split_point(s, b) == k,
{
    let c = key_split_point(s, b);
    assert(is_key_split(s, b, c));
    if c < k {
        assert(key_less(s[c], b));
    } else if c > k {
        assert(key_less(s[k], b));
    }
}

/// A collection in order parts at every marker.
pub proof fn lemma_key_split_exists(s: Seq<BreakpointView>, b: BreakpointView)
    requires
        sorted(s),
    ensures
        is_key_split(s, b, key_split_point(s, b)),
    decreases s.len(),
{
    if s.len() == 0 {
        assert(is_key_split(s, b, 0));
    } else {
        let p = s.drop_last();
        let last = s[s.len() - 1];
        assert(sorted(p)) by {
            assert forall|i: int, j: int| 0 <= i <= j < p.len() implies !key_less(
                #[trigger] p[j],
                #[trigger] p[i],
            ) by {
                assert(p[i] == s[i] && p[j] == s[j]);
            }
        }
        lemma_key_split_exists(p, b);
        let k = key_split_point(p, b);
        if !key_less(last, b) {
            assert forall|j: int| 0 <= j < k implies key_less(#[trigger] s[j], b) by {
                assert(s[j] == p[j]);
            }
            assert forall|j: int| k <= j < s.len() implies !key_less(#[trigger] s[j], b) by {
                if j < p.len() {
                    assert(s[j] == p[j]);
                }
            }
            assert(is_key_split(s, b, k));
        } else {
            assert forall|j: int| 0 <= j < s.len() implies key_less(#[trigger] s[j], b) by {
                assert(!key_less(last, s[j]));
                lemma_key_order(s[j], last, b);
            }
            assert(is_key_split(s, b, s.len() as int));
        }
        lemma_key_order(last, last, last);
    }
    assert(exists|k: int| is_key_split(s, b, k));
}

/// `k` parts `s` into the markers before `position` and those at or after it.
pub open spec fn is_split(s: Seq<BreakpointView>, position: u64, k: int) -> bool {
    &&& 0 <= k <= s.len()
    &&& forall|j: int| 0 <= j < k ==> #[trigger] s[j].timepoint < position
    &&& forall|j: int| k <= j < s.len() ==> #[trigger] s[j].timepoint >= position
}

/// The index that parts `s` at `position` (see [`is_split`]).
pub open spec fn split_point(s: Seq<BreakpointView>, position: u64) -> int {
    choose|k: int| is_split(s, position, k)
}

/// The last marker strictly before `position`.
pub open spec fn previous_of(s: Seq<BreakpointView>, position: u64) -> Option<BreakpointView> {
    let k = split_point(s, position);
    if k > 0 {
        Some(s[k - 1])
    } else {
        None
    }
}

/// The first marker at or after `position`.
pub open spec fn next_of(s: Seq<BreakpointView>, position: u64) -> Option<BreakpointView> {
    let k = split_point(s, position);
    if k < s.len() {
        Some(s[k])
    } else {
        None
    }
}

/// Whichever of [`previous_of`] and [`next_of`] lies closer to `position`; on
/// equal distances, the previous one.
pub open spec fn nearest_of(s: Seq<BreakpointView>, position: u64) -> Option<BreakpointView> {
    match (previous_of(s, position), next_of(s, position)) {
        (Some(p), Some(n)) => if n.timepoint - position < position - p.timepoint {
            Some(n)
        } else {
            Some(p)
        },
        (Some(p), None) => Some(p),
        (None, n) => n,
    }
}

pub open spec fn opt_view(o: Option<Breakpoint>) -> Option<BreakpointView> {
    match o {
        Some(b) => Some(b@),
        None => None,
    }
}

/// The split index is unique.
pub proof fn lemma_split_unique(s: Seq<BreakpointView>, position: u64, k: int)
    requires
        is_split(s, position, k),
    ensures
        split_point(s, position) == k,
{
    let c = split_point(s, position);
    assert(is_split(s, position, c));
    if c < k {
        assert(s[c].timepoint < position);
    } else if c > k {
        assert(s[k].timepoint < position);
    }
}

/// A collection in order parts at every offset.
pub proof fn lemma_split_exists(s: Seq<BreakpointView>, position: u64)
    requires
        ordered(s),
    ensures
        is_split(s, position, split_point(s, position)),
    decreases s.len(),
{
    if s.len() == 0 {
        assert(is_split(s, position, 0));
    } else {
        let p = s.drop_last();
        assert(ordered(p)) by {
            assert forall|i: int, j: int| 0 <= i <= j < p.len() implies p[i].timepoint
                <= p[j].timepoint by {
                assert(p[i] == s[i] && p[j] == s[j]);
            }
        }
        lemma_split_exists(p, position);
        let k = split_point(p, position);
        if s.last().timepoint >= position {
            assert forall|j: int| 0 <= j < k implies #[trigger] s[j].timepoint < position by {
                assert(s[j] == p[j]);
            }
            assert forall|j: int| k <= j < s.len() implies #[trigger] s[j].timepoint
                >= position by {
                if j < p.len() {
                    assert(s[j] == p[j]);
                }
            }
            assert(is_split(s, position, k));
        } else {
            assert forall|j: int| 0 <= j < s.len() implies #[trigger] s[j].timepoint
                < position by {
                assert(s[j].timepoint <= s[s.len() - 1].timepoint);
            }
            assert(is_split(s, position, s.len() as int));
        }
    }
}

/// Markers kept in their order: by offset, and by hint among equal offsets.
/// The order of a collection thus depends on its markers alone.
pub struct BreakpointCollection {
    items: Vec<Breakpoint>,
}

impl View for BreakpointCollection {
    type V = Seq<BreakpointView>;

    closed spec fn view(&self) -> Seq<BreakpointView> {
        self.items@.map_values(|b: Breakpoint| b@)
    }
}

impl BreakpointCollection {
    pub open spec fn wf(&self) -> bool {
        sorted(self@)
    }

    pub fn new() -> (r: BreakpointCollection)
        ensures
            r@ == Seq::<BreakpointView>::empty(),
            r.wf(),
    {
        BreakpointCollection { items: Vec::new() }
    }

    pub fn len(&self) -> (r: usize)
        ensures
            r == self@.len(),
    {
        self.items.len()
    }

    pub fn is_empty(&self) -> (r: bool)
        ensures
            r == (self@.len() == 0),
    {
        self.items.len() == 0
    }

    /// The marker at index `i` in offset order.
    pub fn get(&self, i: usize) -> (r: Breakpoint)
        requires
            i < self@.len(),
        ensures
            r@ == self@[i as int],
    {
        self.items[i].clone()
    }

    /// The markers in offset order.
    pub fn to_vec(&self) -> (r: Vec<Breakpoint>)
        ensures
            r@.map_values(|b: Breakpoint| b@) == self@,
    {
        let mut out: Vec<Breakpoint> = Vec::new();
        let mut i: usize = 0;
        while i < self.items.len()
            invariant
                i <= self.items.len(),
                out@.len() == i,
                forall|j: int| 0 <= j < i ==> #[trigger] out@[j]@ == self@[j],
            decreases self.items.len() - i,
        {
            let b = self.items[i].clone();
            assert(b@ == self@[i as int]);
            out.push(b);
            i = i + 1;
        }
        assert(out@.map_values(|b: Breakpoint| b@) =~= self@);
        out
    }

    /// A copy with the same markers in the same order.
    pub fn duplicate(&self) -> (r: BreakpointCollection)
        ensures
            r@ == self@,
    {
        BreakpointCollection { items: self.to_vec() }
    }

    /// The index that parts the markers at `position`.
    fn split_index(&self, position: u64) -> (k: usize)
        requires
            self.wf(),
        ensures
            is_split(self@, position, k as int),
            k == split_point(self@, position),
    {
        proof {
            lemma_sorted_ordered(self@);
        }
        let mut k: usize = 0;
        while k < self.items.len() && self.items[k].timepoint() < position
            invariant
                k <= self.items.len(),
                forall|j: int| 0 <= j < k ==> #[trigger] self@[j].timepoint < position,
            decreases self.items.len() - k,
        {
            k = k + 1;
        }
        assert forall|j: int| k <= j < self@.len() implies #[trigger] self@[j].timepoint
            >= position by {
            assert(self@[k as int].timepoint >= position);
            assert(self@[k as int].timepoint <= self@[j].timepoint);
        }
        proof {
            lemma_split_unique(self@, position, k as int);
        }
        k
    }

    /// Inserts `bp` in its place in the order of markers, before any equal
    /// marker, and returns the index it now holds.
    pub fn insert(&mut self, bp: Breakpoint) -> (r: usize)
        requires
            old(self).wf(),
        ensures
            final(self).wf(),
            r == key_split_point(old(self)@, bp@),
            r <= old(self)@.len(),
            final(self)@ == old(self)@.insert(r as int, bp@),
    {
        let ghost v = bp@;
        let mut k: usize = 0;
        while k < self.items.len() && self.items[k].precedes(&bp)
            invariant
                k <= self.items.len(),
                self@ == old(self)@,
                v == bp@,
                forall|j: int| 0 <= j < k ==> key_less(#[trigger] self@[j], v),
            decreases self.items.len() - k,
        {
            k = k + 1;
        }
        proof {
            assert forall|j: int| k <= j < self@.len() implies !key_less(#[trigger] self@[j], v) by {
                let s = self@;
                assert(!key_less(s[k as int], v));
                assert(!key_less(s[j], s[k as int]));
                lemma_key_order(s[j], s[k as int], v);
                if s[j] != s[k as int] {
                    lemma_key_order(s[j], v, s[k as int]);
                    lemma_key_order(s[k as int], s[j], v);
                }
            }
            lemma_key_split_unique(self@, v, k as int);
        }
        self.items.insert(k, bp);
        assert(self@ =~= old(self)@.insert(k as int, v));
        proof {
            let o = old(self)@;
            assert forall|i: int, j: int| 0 <= i <= j < self@.len() implies !key_less(
                #[trigger] self@[j],
                #[trigger] self@[i],
            ) by {
                let i2 = if i < k { i } else { i - 1 };
                let j2 = if j < k { j } else { j - 1 };
                if i != k && j != k {
                    assert(self@[i] == o[i2] && self@[j] == o[j2]);
                } else if i == k && j != k {
                    assert(self@[j] == o[j2]);
                    lemma_key_order(o[j2], v, v);
                } else if j == k && i != k {
                    assert(self@[i] == o[i2]);
                    lemma_key_order(v, o[i2], v);
                } else {
                    lemma_key_order(v, v, v);
                }
            }
        }
        k
    }

    /// Removes the first marker equal to `bp`, and returns its index; leaves
    /// the collection as it is and returns `None` where there is none.
    pub fn remove(&mut self, bp: &Breakpoint) -> (r: Option<usize>)
        requires
            old(self).wf(),
        ensures
            final(self).wf(),
            match r {
                Some(i) => {
                    &&& i < old(self)@.len()
                    &&& old(self)@[i as int] == bp@
                    &&& forall|j: int| 0 <= j < i ==> old(self)@[j] != bp@
                    &&& final(self)@ == old(self)@.remove(i as int)
                },
                None => {
                    &&& forall|j: int| 0 <= j < old(self)@.len() ==> old(self)@[j] != bp@
                    &&& final(self)@ == old(self)@
                },
            },
    {
        let mut i: usize = 0;
        while i < self.items.len()
            invariant
                i <= self.items.len(),
                self@ == old(self)@,
                old(self).wf(),
                forall|j: int| 0 <= j < i ==> old(self)@[j] != bp@,
            decreases self.items.len() - i,
        {
            if self.items[i].same_as(bp) {
                self.items.remove(i);
                assert(self@ =~= old(self)@.remove(i as int));
                assert forall|a: int, b: int| 0 <= a <= b < self@.len() implies !key_less(
                    #[trigger] self@[b],
                    #[trigger] self@[a],
                ) by {
                    let a2 = if a < i { a } else { a + 1 };
                    let b2 = if b < i { b } else { b + 1 };
                    assert(self@[a] == old(self)@[a2]);
                    assert(self@[b] == old(self)@[b2]);
                }
                return Some(i);
            }
            i = i + 1;
        }
        None
    }

    /// Empties the collection and hands back what it held.
    pub fn clear(&mut self) -> (r: BreakpointCollection)
        requires
            old(self).wf(),
        ensures
            r@ == old(self)@,
            r.wf(),
            final(self)@ == Seq::<BreakpointView>::empty(),
            final(self).wf(),
    {
        let mut prior = BreakpointCollection::new();
        std::mem::swap(self, &mut prior);
        prior
    }

    /// The last marker before `position` and the first at or after it.
    pub fn neighbors(&self, position: u64) -> (r: (Option<Breakpoint>, Option<Breakpoint>))
        requires
            self.wf(),
        ensures
            opt_view(r.0) == previous_of(self@, position),
            opt_view(r.1) == next_of(self@, position),
            r.0 is Some ==> r.0->0@.timepoint < position,
            r.1 is Some ==> r.1->0@.timepoint >= position,
    {
        let k = self.split_index(position);
        let prev = if k > 0 {
            Some(self.items[k - 1].clone())
        } else {
            None
        };
        let next = if k < self.items.len() {
            Some(self.items[k].clone())
        } else {
            None
        };
        (prev, next)
    }

    /// Whichever neighbor of `position` is closer; the previous one on a tie.
    pub fn nearest_to(&self, position: u64) -> (r: Option<Breakpoint>)
        requires
            self.wf(),
        ensures
            opt_view(r) == nearest_of(self@, position),
    {
        let (prev, next) = self.neighbors(position);
        match (prev, next) {
            (Some(p), Some(n)) => {
                if n.timepoint() - position < position - p.timepoint() {
                    Some(n)
                } else {
                    Some(p)
                }
            },
            (Some(p), None) => Some(p),
            (None, n) => n,
        }
    }
}

} // verus!
