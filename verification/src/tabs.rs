use vstd::prelude::*;

verus! {

/// Tab stops: column positions, strictly increasing.
#[derive(Debug)]
pub struct Tabs {
    pub stops: Vec<usize>,
}

pub open spec fn sorted(s: Seq<usize>) -> bool {
    forall|i: int, j: int| 0 <= i < j < s.len() ==> s[i] < s[j]
}

/// `k` splits `s` into the stops before `pos` and the stops at or after it.
pub open spec fn split_at_pos(s: Seq<usize>, k: int, pos: int) -> bool {
    &&& 0 <= k <= s.len()
    &&& forall|i: int| 0 <= i < k ==> s[i] < pos
    &&& forall|i: int| k <= i < s.len() ==> s[i] >= pos
}

/// The default stops for `cols` columns: every 8th column, from 8, below `cols`.
pub open spec fn default_stops(cols: nat) -> Seq<usize> {
    Seq::new(if cols == 0 { 0 } else { ((cols - 1) / 8) as nat }, |i: int| (8 * (i + 1)) as usize)
}

/// The stops every 8th column, from the first multiple of 8 above `start`,
/// below `end`.
pub open spec fn stops_between(start: nat, end: nat) -> Seq<usize> {
    let first = start + 8 - start % 8;
    Seq::new(if first < end { ((end - first - 1) / 8 + 1) as nat } else { 0 }, |i: int| (first + 8 * i) as usize)
}

impl View for Tabs {
    type V = Seq<usize>;

    open spec fn view(&self) -> Seq<usize> {
        self.stops@
    }
}

impl Tabs {
    pub open spec fn wf(&self) -> bool {
        sorted(self@)
    }

    /// Stops every 8 columns, below `cols`.
    pub fn new(cols: usize) -> (t: Self)
        ensures
            t.wf(),
            t@ == default_stops(cols as nat),
    {
        let mut stops: Vec<usize> = Vec::new();
        let n: usize = if cols == 0 { 0 } else { (cols - 1) / 8 };
        let mut i: usize = 0;
        while i < n
            invariant
                n == if cols == 0 { 0usize } else { ((cols - 1) / 8) as usize },
                i <= n,
                stops@ == default_stops(cols as nat).subrange(0, i as int),
            decreases n - i,
        {
            assert(8 * (i + 1) <= 8 * n <= cols) by (nonlinear_arith)
                requires i < n, n == (if cols == 0 { 0usize } else { ((cols - 1) / 8) as usize });
            stops.push(8 * (i + 1));
            i += 1;
            assert(stops@ =~= default_stops(cols as nat).subrange(0, i as int));
        }
        assert(default_stops(cols as nat).subrange(0, n as int) =~= default_stops(cols as nat));
        let r = Tabs { stops };
        assert(r@ =~= default_stops(cols as nat));
        r
    }

    fn position(&self, pos: usize) -> (k: usize)
        requires
            self.wf(),
        ensures
            split_at_pos(self@, k as int, pos as int),
    {
        let mut k: usize = 0;
        while k < self.stops.len() && self.stops[k] < pos
            invariant
                self.wf(),
                k <= self@.len(),
                forall|i: int| 0 <= i < k ==> self@[i] < pos,
            decreases self@.len() - k,
        {
            k += 1;
        }
        k
    }

    /// Adds a stop at `pos`, unless there is one already.
    pub fn set(&mut self, pos: usize)
        requires
            old(self).wf(),
        ensures
            final(self).wf(),
            final(self)@.to_set() == old(self)@.to_set().insert(pos),
    {
        let k = self.position(pos);
        if k < self.stops.len() && self.stops[k] == pos {
            assert(self@.to_set().insert(pos) =~= self@.to_set());
        } else {
            self.stops.insert(k, pos);
            assert(self@ =~= old(self)@.subrange(0, k as int).push(pos) + old(self)@.subrange(k as int, old(self)@.len() as int));
            assert(self@.to_set() =~= old(self)@.to_set().insert(pos)) by {
                assert forall|x: usize| self@.to_set().contains(x) <==> old(self)@.to_set().insert(pos).contains(x) by {
                    if self@.contains(x) {
                        let i = choose|i: int| 0 <= i < self@.len() && self@[i] == x;
                        if i < k {
                            assert(old(self)@[i] == x);
                        } else if i > k {
                            assert(old(self)@[i - 1] == x);
                        }
                    }
                    if old(self)@.contains(x) {
                        let i = choose|i: int| 0 <= i < old(self)@.len() && old(self)@[i] == x;
                        if i < k {
                            assert(self@[i] == x);
                        } else {
                            assert(self@[i + 1] == x);
                        }
                    }
                    if x == pos {
                        assert(self@[k as int] == x);
                    }
                }
            }
        }
    }

    /// Removes the stop at `pos`, if there is one.
    pub fn unset(&mut self, pos: usize)
        requires
            old(self).wf(),
        ensures
            final(self).wf(),
            final(self)@.to_set() == old(self)@.to_set().remove(pos),
    {
        let k = self.position(pos);
        if k < self.stops.len() && self.stops[k] == pos {
            self.stops.remove(k);
            assert(self@ =~= old(self)@.subrange(0, k as int) + old(self)@.subrange(k + 1, old(self)@.len() as int));
            assert(self@.to_set() =~= old(self)@.to_set().remove(pos)) by {
                assert forall|x: usize| self@.to_set().contains(x) <==> old(self)@.to_set().remove(pos).contains(x) by {
                    if self@.contains(x) {
                        let i = choose|i: int| 0 <= i < self@.len() && self@[i] == x;
                        if i < k {
                            assert(old(self)@[i] == x);
                        } else {
                            assert(old(self)@[i + 1] == x);
                        }
                    }
                    if old(self)@.contains(x) && x != pos {
                        let i = choose|i: int| 0 <= i < old(self)@.len() && old(self)@[i] == x;
                        if i < k {
                            assert(self@[i] == x);
                        } else {
                            assert(self@[i - 1] == x);
                        }
                    }
                }
            }
        } else {
            assert(!old(self)@.contains(pos));
            assert(self@.to_set().remove(pos) =~= self@.to_set());
        }
    }

    /// Adds stops every 8th column from the first multiple of 8 above
    /// `start`, below `end`.
    pub fn expand(&mut self, start: usize, end: usize)
        ensures
            final(self)@ == old(self)@ + stops_between(start as nat, end as nat),
            old(self).wf() && (forall|i: int| 0 <= i < old(self)@.len() ==> old(self)@[i] <= start)
                ==> final(self).wf(),
    {
        let step = 8 - start % 8;
        if start >= end || step >= end - start {
            assert(old(self)@ + stops_between(start as nat, end as nat) =~= old(self)@);
            return;
        }
        let first = start + step;
        let n: usize = (end - first - 1) / 8 + 1;
        let mut i: usize = 0;
        while i < n
            invariant
                first == start + 8 - start % 8,
                first < end,
                n == ((end - first - 1) / 8 + 1) as usize,
                i <= n,
                self@ == old(self)@ + stops_between(start as nat, end as nat).subrange(0, i as int),
            decreases n - i,
        {
            assert(first + 8 * i < end) by (nonlinear_arith)
                requires i < n, first < end, n == (end - first - 1) / 8 + 1;
            self.stops.push(first + 8 * i);
            i += 1;
            assert(self@ =~= old(self)@ + stops_between(start as nat, end as nat).subrange(0, i as int));
        }
        assert(stops_between(start as nat, end as nat).subrange(0, n as int) =~= stops_between(start as nat, end as nat));
    }

    /// Removes the stops at or after `pos`.
    pub fn contract(&mut self, pos: usize)
        requires
            old(self).wf(),
        ensures
            final(self).wf(),
            exists|k: int| #[trigger] split_at_pos(old(self)@, k, pos as int) && final(self)@ == old(self)@.subrange(0, k),
    {
        let k = self.position(pos);
        self.stops.truncate(k);
        assert(split_at_pos(old(self)@, k as int, pos as int));
    }

    /// Removes all stops.
    pub fn clear(&mut self)
        ensures
            final(self)@ == Seq::<usize>::empty(),
            final(self).wf(),
    {
        self.stops.clear();
    }

    /// The `n`-th stop before `pos`, counting back from `pos`.
    pub fn before(&self, pos: usize, n: usize) -> (r: Option<usize>)
        requires
            self.wf(),
            n >= 1,
        ensures
            exists|k: int| #[trigger] split_at_pos(self@, k, pos as int)
                && r == (if n <= k { Some(self@[k - n]) } else { None::<usize> }),
    {
        let k = self.position(pos);
        if n <= k {
            Some(self.stops[k - n])
        } else {
            None
        }
    }

    /// The `n`-th stop after `pos`.
    pub fn after(&self, pos: usize, n: usize) -> (r: Option<usize>)
        requires
            self.wf(),
            n >= 1,
        ensures
            exists|k: int| #[trigger] split_at_pos(self@, k, pos + 1)
                && r == (if k + n - 1 < self@.len() { Some(self@[k + n - 1]) } else { None::<usize> }),
    {
        if pos == usize::MAX {
            assert(split_at_pos(self@, self@.len() as int, pos + 1));
            return None;
        }
        let k = self.position(pos + 1);
        if k < self.stops.len() && n - 1 < self.stops.len() - k {
            Some(self.stops[k + n - 1])
        } else {
            None
        }
    }

    /// Whether both hold the same stops.
    pub fn eq(&self, other: &Tabs) -> (b: bool)
        ensures
            b == (self@ == other@),
    {
        if self.stops.len() != other.stops.len() {
            return false;
        }
        let mut i: usize = 0;
        while i < self.stops.len()
            invariant
                self@.len() == other@.len(),
                i <= self@.len(),
                forall|j: int| 0 <= j < i ==> self@[j] == other@[j],
            decreases self@.len() - i,
        {
            if self.stops[i] != other.stops[i] {
                return false;
            }
            i += 1;
        }
        assert(self@ =~= other@);
        true
    }

    /// The stops, in increasing order.
    pub fn as_slice(&self) -> (s: &[usize])
        ensures
            s@ == self@,
    {
        self.stops.as_slice()
    }
}

/// There is one split of a sequence of stops at a position.
pub proof fn lemma_split_unique(s: Seq<usize>, pos: int)
    ensures
        forall|k1: int, k2: int| split_at_pos(s, k1, pos) && split_at_pos(s, k2, pos) ==> k1 == k2,
{
    assert forall|k1: int, k2: int| split_at_pos(s, k1, pos) && split_at_pos(s, k2, pos) implies k1 == k2 by {
        if k1 < k2 {
            assert(s[k1] < pos);
        } else if k2 < k1 {
            assert(s[k2] < pos);
        }
    }
}

/// The stops added between `start` and `end` lie before `end`.
pub proof fn lemma_stops_between_below(start: nat, end: nat, i: int)
    requires
        0 <= i < stops_between(start, end).len(),
    ensures
        stops_between(start, end)[i] < end,
{
    let first = start + 8 - start % 8;
    let n = stops_between(start, end).len();
    assert(first < end);
    assert(n == (end - first - 1) / 8 + 1);
    assert(first + 8 * i < end) by (nonlinear_arith)
        requires 0 <= i < n, first < end, n == (end - first - 1) / 8 + 1;
}

/// Strictly increasing stops are fixed by the set of them.
pub proof fn lemma_sorted_same_set(x: Seq<usize>, y: Seq<usize>)
    requires
        sorted(x),
        sorted(y),
        x.to_set() == y.to_set(),
    ensures
        x == y,
    decreases x.len(),
{
    if x.len() == 0 {
        if y.len() > 0 {
            assert(y.to_set().contains(y[0]));
            assert(!x.contains(y[0]));
        }
        assert(x =~= y);
    } else {
        assert(x.to_set().contains(x[0]));
        assert(y.contains(x[0]));
        assert(y.len() > 0);
        assert(y.to_set().contains(y[0]));
        assert(x.contains(y[0]));
        let i = choose|i: int| 0 <= i < x.len() && x[i] == y[0];
        let j = choose|j: int| 0 <= j < y.len() && y[j] == x[0];
        assert(x[0] <= x[i]);
        assert(y[0] <= y[j]);
        assert(x[0] == y[0]);
        let x1 = x.drop_first();
        let y1 = y.drop_first();
        assert(x1.to_set() =~= y1.to_set()) by {
            assert forall|a: usize| x1.to_set().contains(a) <==> y1.to_set().contains(a) by {
                if x1.contains(a) {
                    let k = choose|k: int| 0 <= k < x1.len() && x1[k] == a;
                    assert(x[k + 1] == a && x[0] < a);
                    assert(x.contains(a));
                    assert(x.to_set().contains(a));
                    assert(y.to_set().contains(a));
                    assert(y.contains(a));
                    let m = choose|m: int| 0 <= m < y.len() && y[m] == a;
                    assert(m != 0);
                    assert(y1[m - 1] == a);
                }
                if y1.contains(a) {
                    let k = choose|k: int| 0 <= k < y1.len() && y1[k] == a;
                    assert(y[k + 1] == a && y[0] < a);
                    assert(x.to_set().contains(a));
                    let m = choose|m: int| 0 <= m < x.len() && x[m] == a;
                    assert(m != 0);
                    assert(x1[m - 1] == a);
                }
            }
        }
        lemma_sorted_same_set(x1, y1);
        assert(x =~= seq![x[0]] + x1);
        assert(y =~= seq![y[0]] + y1);
    }
}

/// Clearing a stop just set where there was none brings the stops back:
/// for strictly increasing stops `a` without `pos`, `b` as `set(pos)`
/// leaves them and `c` as `unset(pos)` then leaves those, `c` is `a`.
pub proof fn lemma_unset_undoes_set(a: Seq<usize>, b: Seq<usize>, c: Seq<usize>, pos: usize)
    requires
        sorted(a),
        sorted(b),
        sorted(c),
        !a.contains(pos),
        b.to_set() == a.to_set().insert(pos),
        c.to_set() == b.to_set().remove(pos),
    ensures
        c == a,
{
    assert(c.to_set() =~= a.to_set());
    lemma_sorted_same_set(c, a);
}

} // verus!
