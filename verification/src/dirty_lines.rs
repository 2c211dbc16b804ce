use std::ops::Range;
use vstd::prelude::*;

verus! {

/// Which rows of the view changed since the last query.
#[derive(Debug)]
pub struct DirtyLines {
    pub flags: Vec<bool>,
}

/// The indices below `upto` whose flag is set, increasing.
pub open spec fn dirty_indices(v: Seq<bool>, upto: int) -> Seq<usize>
    decreases upto,
{
    if upto <= 0 {
        Seq::empty()
    } else if v[upto - 1] {
        dirty_indices(v, upto - 1).push((upto - 1) as usize)
    } else {
        dirty_indices(v, upto - 1)
    }
}

impl View for DirtyLines {
    type V = Seq<bool>;

    open spec fn view(&self) -> Seq<bool> {
        self.flags@
    }
}

impl DirtyLines {
    /// `len` rows, all changed.
    pub fn new(len: usize) -> (d: Self)
        ensures
            d@ == Seq::new(len as nat, |i: int| true),
    {
        let mut flags: Vec<bool> = Vec::new();
        let mut i: usize = 0;
        while i < len
            invariant
                i <= len,
                flags@ == Seq::new(i as nat, |k: int| true),
            decreases len - i,
        {
            flags.push(true);
            i += 1;
            assert(flags@ =~= Seq::new(i as nat, |k: int| true));
        }
        DirtyLines { flags }
    }

    /// Marks row `n` changed.
    pub fn add(&mut self, n: usize)
        requires
            n < old(self)@.len(),
        ensures
            final(self)@ == old(self)@.update(n as int, true),
    {
        self.flags.set(n, true);
    }

    /// Marks the rows of `range` changed.
    pub fn extend(&mut self, range: Range<usize>)
        requires
            range.start <= range.end <= old(self)@.len(),
        ensures
            final(self)@.len() == old(self)@.len(),
            forall|i: int| 0 <= i < old(self)@.len() ==> #[trigger] final(self)@[i]
                == (old(self)@[i] || (range.start <= i < range.end)),
    {
        let mut i = range.start;
        while i < range.end
            invariant
                range.start <= i <= range.end <= self@.len(),
                self@.len() == old(self)@.len(),
                forall|k: int| 0 <= k < self@.len() ==> #[trigger] self@[k]
                    == (old(self)@[k] || (range.start <= k < i)),
            decreases range.end - i,
        {
            self.flags.set(i, true);
            i += 1;
        }
    }

    /// Changes the number of rows; new rows are unchanged.
    pub fn resize(&mut self, len: usize)
        ensures
            final(self)@.len() == len,
            forall|i: int| 0 <= i < len ==> #[trigger] final(self)@[i]
                == (i < old(self)@.len() && old(self)@[i]),
    {
        if len <= self.flags.len() {
            self.flags.truncate(len);
        } else {
            while self.flags.len() < len
                invariant
                    old(self)@.len() <= self@.len() <= len,
                    forall|i: int| 0 <= i < self@.len() ==> #[trigger] self@[i]
                        == (i < old(self)@.len() && old(self)@[i]),
                decreases len - self@.len(),
            {
                self.flags.push(false);
            }
        }
    }

    /// Marks all rows unchanged.
    pub fn clear(&mut self)
        ensures
            final(self)@ == Seq::new(old(self)@.len(), |i: int| false),
    {
        let mut i: usize = 0;
        while i < self.flags.len()
            invariant
                i <= self@.len(),
                self@.len() == old(self)@.len(),
                forall|k: int| 0 <= k < i ==> #[trigger] self@[k] == false,
            decreases self@.len() - i,
        {
            self.flags.set(i, false);
            i += 1;
        }
        assert(self@ =~= Seq::new(old(self)@.len(), |i: int| false));
    }

    /// The changed rows, in increasing order.
    pub fn to_vec(&self) -> (v: Vec<usize>)
        ensures
            v@ == dirty_indices(self@, self@.len() as int),
    {
        let mut v: Vec<usize> = Vec::new();
        let mut i: usize = 0;
        while i < self.flags.len()
            invariant
                i <= self@.len(),
                v@ == dirty_indices(self@, i as int),
            decreases self@.len() - i,
        {
            if self.flags[i] {
                v.push(i);
            }
            i += 1;
        }
        v
    }
}

/// The changed rows below `upto` are below `upto`.
pub proof fn lemma_dirty_indices_below(v: Seq<bool>, upto: int)
    ensures
        forall|i: int| 0 <= i < dirty_indices(v, upto).len() ==> #[trigger] dirty_indices(v, upto)[i] < upto,
        dirty_indices(v, upto).len() <= if upto < 0 { 0 } else { upto },
    decreases upto,
{
    if upto > 0 {
        lemma_dirty_indices_below(v, upto - 1);
    }
}

/// When all rows changed, the changed rows are all rows, in order.
pub proof fn lemma_all_dirty(v: Seq<bool>, n: int)
    requires
        0 <= n <= v.len(),
        forall|i: int| 0 <= i < n ==> #[trigger] v[i],
    ensures
        dirty_indices(v, n) == Seq::new(n as nat, |i: int| i as usize),
    decreases n,
{
    if n > 0 {
        lemma_all_dirty(v, n - 1);
        assert(dirty_indices(v, n) =~= Seq::new(n as nat, |i: int| i as usize));
    } else {
        assert(dirty_indices(v, n) =~= Seq::new(n as nat, |i: int| i as usize));
    }
}

/// The changed rows below `upto`: exactly the marked ones, in increasing
/// order.
pub proof fn lemma_dirty_indices_members(v: Seq<bool>, upto: int)
    requires
        0 <= upto <= v.len(),
        v.len() <= usize::MAX,
    ensures
        forall|k: usize| #[trigger] dirty_indices(v, upto).contains(k) <==> (k < upto && v[k as int]),
        forall|i: int, j: int| 0 <= i < j < dirty_indices(v, upto).len()
            ==> dirty_indices(v, upto)[i] < dirty_indices(v, upto)[j],
    decreases upto,
{
    if upto > 0 {
        lemma_dirty_indices_members(v, upto - 1);
        lemma_dirty_indices_below(v, upto - 1);
        let d = dirty_indices(v, upto - 1);
        if v[upto - 1] {
            let e = d.push((upto - 1) as usize);
            assert forall|k: usize| #[trigger] e.contains(k) <==> (k < upto && v[k as int]) by {
                if k == upto - 1 {
                    assert(e[e.len() - 1] == k);
                } else {
                    if e.contains(k) {
                        let i = choose|i: int| 0 <= i < e.len() && e[i] == k;
                        assert(i < d.len());
                        assert(d[i] == k);
                        assert(d.contains(k));
                    }
                    if k < upto - 1 && v[k as int] {
                        assert(d.contains(k));
                        let i = choose|i: int| 0 <= i < d.len() && d[i] == k;
                        assert(e[i] == k);
                    }
                }
            }
        }
    } else {
        assert forall|k: usize| #[trigger] dirty_indices(v, upto).contains(k) <==> (k < upto && v[k as int]) by {}
    }
}

/// Marking row `n` adds it to the changed rows, once: the list after is the
/// list before with `n` added, still in increasing order, and marking it
/// again changes nothing.
pub proof fn lemma_add_law(v: Seq<bool>, n: int)
    requires
        0 <= n < v.len(),
        v.len() <= usize::MAX,
    ensures
        dirty_indices(v.update(n, true), v.len() as int).to_set()
            == dirty_indices(v, v.len() as int).to_set().insert(n as usize),
        v.update(n, true).update(n, true) == v.update(n, true),
{
    let w = v.update(n, true);
    lemma_dirty_indices_members(v, v.len() as int);
    lemma_dirty_indices_members(w, v.len() as int);
    assert(dirty_indices(w, v.len() as int).to_set() =~= dirty_indices(v, v.len() as int).to_set().insert(n as usize));
    assert(w.update(n, true) =~= w);
}

/// Marking the rows `start..end` adds them to the changed rows: the list
/// after holds the rows before and those of the range, in increasing order.
pub proof fn lemma_extend_law(v: Seq<bool>, w: Seq<bool>, start: int, end: int)
    requires
        0 <= start <= end <= v.len(),
        v.len() <= usize::MAX,
        w.len() == v.len(),
        forall|i: int| 0 <= i < v.len() ==> #[trigger] w[i] == (v[i] || (start <= i < end)),
    ensures
        dirty_indices(w, w.len() as int).to_set()
            == dirty_indices(v, v.len() as int).to_set().union(Set::new(|k: usize| start <= k < end)),
{
    lemma_dirty_indices_members(v, v.len() as int);
    lemma_dirty_indices_members(w, w.len() as int);
    assert(dirty_indices(w, w.len() as int).to_set()
        =~= dirty_indices(v, v.len() as int).to_set().union(Set::new(|k: usize| start <= k < end)));
}

} // verus!
