use vstd::prelude::*;
use vstd::string::StrSliceExecFns;

verus! {

/// The most characters of hint that a user may enter.
pub const HINT_LIMIT: usize = 64;

/// `hint` cut to at most [`HINT_LIMIT`] characters.
pub open spec fn capped(hint: Seq<char>) -> Seq<char> {
    if hint.len() > HINT_LIMIT {
        hint.subrange(0, HINT_LIMIT as int)
    } else {
        hint
    }
}

/// A hint as typed by a user, cut to at most [`HINT_LIMIT`] characters.
pub fn cap_hint(hint: &str) -> (r: String)
    ensures
        r@ == capped(hint@),
{
    let n = hint.unicode_len();
    if n > HINT_LIMIT {
        hint.substring_char(0, HINT_LIMIT).to_owned()
    } else {
        hint.to_owned()
    }
}

/// `a` comes before `b` in dictionary order of their characters.
pub open spec fn seq_less(a: Seq<char>, b: Seq<char>) -> bool
    decreases a.len(),
{
    if a.len() == 0 {
        b.len() > 0
    } else if b.len() == 0 {
        false
    } else if a[0] == b[0] {
        seq_less(a.drop_first(), b.drop_first())
    } else {
        a[0] < b[0]
    }
}

/// The order of markers: by offset, and by hint among equal offsets.
pub open spec fn key_less(a: BreakpointView, b: BreakpointView) -> bool {
    a.timepoint < b.timepoint || (a.timepoint == b.timepoint && seq_less(a.hint, b.hint))
}

pub proof fn lemma_seq_less_irreflexive(a: Seq<char>)
    ensures
        !seq_less(a, a),
    decreases a.len(),
{
    if a.len() > 0 {
        lemma_seq_less_irreflexive(a.drop_first());
    }
}

pub proof fn lemma_seq_less_total(a: Seq<char>, b: Seq<char>)
    ensures
        a != b ==> seq_less(a, b) || seq_less(b, a),
        !(seq_less(a, b) && seq_less(b, a)),
    decreases a.len(),
{
    if a.len() > 0 && b.len() > 0 && a[0] == b[0] {
        lemma_seq_less_total(a.drop_first(), b.drop_first());
        if a.drop_first() == b.drop_first() {
            assert forall|i: int| 0 <= i < a.len() implies a[i] == b[i] by {
                if i > 0 {
                    assert(a[i] == a.drop_first()[i - 1]);
                    assert(b[i] == b.drop_first()[i - 1]);
                }
            }
            assert(a =~= b);
        }
    } else if a.len() == 0 && b.len() == 0 {
        assert(a =~= b);
    }
}

pub proof fn lemma_seq_less_transitive(a: Seq<char>, b: Seq<char>, c: Seq<char>)
    requires
        seq_less(a, b),
        seq_less(b, c),
    ensures
        seq_less(a, c),
    decreases a.len(),
{
    if a.len() > 0 && a[0] == b[0] && b[0] == c[0] {
        lemma_seq_less_transitive(a.drop_first(), b.drop_first(), c.drop_first());
    }
}

/// The order of markers is a strict total order.
pub proof fn lemma_key_order(a: BreakpointView, b: BreakpointView, c: BreakpointView)
    ensures
        !key_less(a, a),
        a != b ==> key_less(a, b) || key_less(b, a),
        !(key_less(a, b) && key_less(b, a)),
        key_less(a, b) && key_less(b, c) ==> key_less(a, c),
{
    lemma_seq_less_irreflexive(a.hint);
    lemma_seq_less_total(a.hint, b.hint);
    if key_less(a, b) && key_less(b, c) && a.timepoint == b.timepoint && b.timepoint
        == c.timepoint {
        lemma_seq_less_transitive(a.hint, b.hint, c.hint);
    }
}

/// Whether `a` comes before `b` in dictionary order.
fn hint_less(a: &str, b: &str) -> (r: bool)
    ensures
        r == seq_less(a@, b@),
{
    let n = a.unicode_len();
    let m = b.unicode_len();
    let mut i: usize = 0;
    assert(a@.subrange(0, n as int) =~= a@);
    assert(b@.subrange(0, m as int) =~= b@);
    while i < n && i < m
        invariant
            i <= n,
            i <= m,
            n == a@.len(),
            m == b@.len(),
            seq_less(a@, b@) == seq_less(a@.subrange(i as int, n as int), b@.subrange(i as int, m as int)),
        decreases n - i,
    {
        let x = a.get_char(i);
        let y = b.get_char(i);
        let ghost sa = a@.subrange(i as int, n as int);
        let ghost sb = b@.subrange(i as int, m as int);
        assert(sa[0] == x && sb[0] == y);
        if x != y {
            return x < y;
        }
        assert(sa.drop_first() =~= a@.subrange(i + 1, n as int));
        assert(sb.drop_first() =~= b@.subrange(i + 1, m as int));
        i = i + 1;
    }
    i < m
}

/// The abstract value of a [`Breakpoint`].
pub struct BreakpointView {
    pub timepoint: u64,
    pub hint: Seq<char>,
}

/// A named marker in the audio: an offset from the start, in milliseconds,
/// and a free-text hint.
pub struct Breakpoint {
    hint: String,
    timepoint: u64,
}

impl View for Breakpoint {
    type V = BreakpointView;

    closed spec fn view(&self) -> BreakpointView {
        BreakpointView { timepoint: self.timepoint, hint: self.hint@ }
    }
}

impl Breakpoint {
    pub fn new(timepoint: u64, hint: String) -> (r: Breakpoint)
        ensures
            r@ == (BreakpointView { timepoint, hint: hint@ }),
    {
        Breakpoint { hint, timepoint }
    }

    pub fn hint(&self) -> (r: String)
        ensures
            r@ == self@.hint,
    {
        self.hint.clone()
    }

    pub fn timepoint(&self) -> (r: u64)
        ensures
            r == self@.timepoint,
    {
        self.timepoint
    }

    /// Whether this marker comes before `other`: by offset, then by hint.
    pub fn precedes(&self, other: &Breakpoint) -> (r: bool)
        ensures
            r == key_less(self@, other@),
    {
        if self.timepoint != other.timepoint {
            self.timepoint < other.timepoint
        } else {
            hint_less(self.hint.as_str(), other.hint.as_str())
        }
    }

    /// Structural equality: same offset and same hint.
    pub fn same_as(&self, other: &Breakpoint) -> (r: bool)
        ensures
            r == (self@ == other@),
    {
        let same = self.timepoint == other.timepoint && self.hint == other.hint;
        proof {
            if self.timepoint == other.timepoint && self.hint@ == other.hint@ {
                assert(self@ == other@);
            }
        }
        same
    }
}

impl Clone for Breakpoint {
    fn clone(&self) -> (r: Breakpoint)
        ensures
            r@ == self@,
    {
        Breakpoint { hint: self.hint.clone(), timepoint: self.timepoint }
    }
}

impl PartialEq for Breakpoint {
    fn eq(&self, other: &Breakpoint) -> (r: bool) {
        self.same_as(other)
    }
}

impl vstd::std_specs::cmp::PartialEqSpecImpl for Breakpoint {
    open spec fn obeys_eq_spec() -> bool {
        true
    }

    open spec fn eq_spec(&self, other: &Breakpoint) -> bool {
        self@ == other@
    }
}

} // verus!
