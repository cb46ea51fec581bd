//! The operator's working set of selected paths: ordered by first
//! insertion, never holding a path twice.

use vstd::prelude::*;

verus! {

/// `l` with `p` appended, unless it already holds `p`.
pub open spec fn add_one(l: Seq<Seq<char>>, p: Seq<char>) -> Seq<Seq<char>> {
    if l.contains(p) {
        l
    } else {
        l.push(p)
    }
}

/// `l` after adding each of `items` in turn, skipping those already present.
pub open spec fn merged(l: Seq<Seq<char>>, items: Seq<Seq<char>>) -> Seq<Seq<char>>
    decreases items.len(),
{
    if items.len() == 0 {
        l
    } else {
        add_one(merged(l, items.drop_last()), items.last())
    }
}

/// `l` with the positions in `gone` deleted, the rest in their order.
pub open spec fn kept(l: Seq<Seq<char>>, gone: Set<int>) -> Seq<Seq<char>>
    decreases l.len(),
{
    if l.len() == 0 {
        l
    } else {
        let rest = kept(l.drop_last(), gone);
        if gone.contains(l.len() - 1) {
            rest
        } else {
            rest.push(l.last())
        }
    }
}

/// The paths of `v`, as character sequences.
pub open spec fn paths_view(v: Seq<String>) -> Seq<Seq<char>> {
    v.map_values(|s: String| s@)
}

/// The positions listed in `v`.
pub open spec fn index_set(v: Seq<usize>) -> Set<int> {
    Set::new(|i: int| exists|t: int| 0 <= t < v.len() && v[t] as int == i)
}

/// An ordered list of paths without duplicates.
pub struct SelectionList {
    paths: Vec<String>,
}

impl View for SelectionList {
    type V = Seq<Seq<char>>;

    closed spec fn view(&self) -> Seq<Seq<char>> {
        paths_view(self.paths@)
    }
}

impl SelectionList {
    /// No path is held twice.
    pub open spec fn wf(&self) -> bool {
        self@.no_duplicates()
    }

    /// An empty selection.
    pub fn new() -> (r: SelectionList)
        ensures
            r@ == Seq::<Seq<char>>::empty(),
            r.wf(),
    {
        SelectionList { paths: Vec::new() }
    }

    /// The number of selected paths.
    pub fn len(&self) -> (r: usize)
        ensures
            r == self@.len(),
    {
        self.paths.len()
    }

    /// Whether nothing is selected.
    pub fn is_empty(&self) -> (r: bool)
        ensures
            r == (self@.len() == 0),
    {
        self.paths.len() == 0
    }

    /// The selected paths, in order of first selection.
    pub fn paths(&self) -> (r: &Vec<String>)
        ensures
            paths_view(r@) == self@,
    {
        &self.paths
    }

    /// Whether `p` is selected.
    pub fn contains(&self, p: &String) -> (r: bool)
        ensures
            r == self@.contains(p@),
    {
        let mut i: usize = 0;
        while i < self.paths.len()
            invariant
                i <= self.paths@.len(),
                forall|t: int| 0 <= t < i ==> self@[t] != p@,
            decreases self.paths@.len() - i,
        {
            if self.paths[i] == *p {
                assert(self@[i as int] == p@);
                return true;
            }
            i = i + 1;
        }
        false
    }

    /// Selects `p`, unless it is selected already.
    pub fn add(&mut self, p: String)
        requires
            old(self).wf(),
        ensures
            final(self).wf(),
            final(self)@ == add_one(old(self)@, p@),
    {
        if !self.contains(&p) {
            let ghost pv = p@;
            self.paths.push(p);
            proof {
                assert(self@ =~= old(self)@.push(pv));
                assert forall|i: int, j: int|
                    0 <= i < self@.len() && 0 <= j < self@.len() && i != j implies self@[i]
                    != self@[j] by {
                    if i < old(self)@.len() && j < old(self)@.len() {
                    } else if i < old(self)@.len() {
                        assert(old(self)@.contains(self@[i]));
                    } else {
                        assert(old(self)@.contains(self@[j]));
                    }
                }
            }
        }
    }

    /// Selects each of `items` in turn, skipping those already selected.
    pub fn add_all(&mut self, items: &Vec<String>)
        requires
            old(self).wf(),
        ensures
            final(self).wf(),
            final(self)@ == merged(old(self)@, paths_view(items@)),
    {
        let mut i: usize = 0;
        while i < items.len()
            invariant
                i <= items@.len(),
                self.wf(),
                self@ == merged(old(self)@, paths_view(items@.take(i as int))),
            decreases items@.len() - i,
        {
            self.add(items[i].clone());
            proof {
                assert(paths_view(items@.take(i + 1)).drop_last() =~= paths_view(
                    items@.take(i as int),
                ));
            }
            i = i + 1;
        }
        proof {
            assert(items@.take(i as int) =~= items@);
        }
    }

    /// Deselects the paths at the listed positions; the others keep their
    /// order. Positions past the end are ignored.
    pub fn remove_indices(&mut self, indices: &Vec<usize>)
        requires
            old(self).wf(),
        ensures
            final(self).wf(),
            final(self)@ == kept(old(self)@, index_set(indices@)),
    {
        let ghost gone = index_set(indices@);
        let mut out: Vec<String> = Vec::new();
        let mut i: usize = 0;
        while i < self.paths.len()
            invariant
                i <= self.paths@.len(),
                self == old(self),
                gone == index_set(indices@),
                paths_view(out@) == kept(self@.take(i as int), gone),
            decreases self.paths@.len() - i,
        {
            let mut listed = false;
            let mut t: usize = 0;
            while t < indices.len()
                invariant
                    t <= indices@.len(),
                    listed == exists|u: int| 0 <= u < t && indices@[u] as int == i as int,
                decreases indices@.len() - t,
            {
                if indices[t] == i {
                    listed = true;
                }
                t = t + 1;
            }
            proof {
                assert(self@.take(i + 1).drop_last() =~= self@.take(i as int));
                assert(gone.contains(i as int) == exists|u: int|
                    0 <= u < indices@.len() && indices@[u] as int == i as int);
                assert(listed == gone.contains(i as int));
            }
            if !listed {
                out.push(self.paths[i].clone());
                proof {
                    assert(paths_view(out@) =~= kept(self@.take(i as int), gone).push(self@[i as int]));
                }
            }
            i = i + 1;
        }
        proof {
            assert(self@.take(i as int) =~= self@);
            lemma_kept_no_duplicates(self@, gone);
        }
        self.paths = out;
    }
}

/// What `kept` leaves is drawn from `l`.
pub proof fn lemma_kept_subset(l: Seq<Seq<char>>, gone: Set<int>)
    ensures
        forall|p: Seq<char>| kept(l, gone).contains(p) ==> l.contains(p),
    decreases l.len(),
{
    if l.len() > 0 {
        lemma_kept_subset(l.drop_last(), gone);
        assert forall|p: Seq<char>| kept(l, gone).contains(p) implies l.contains(p) by {
            let rest = kept(l.drop_last(), gone);
            if rest.contains(p) {
                assert(l.drop_last().contains(p));
                let j = choose|j: int| 0 <= j < l.drop_last().len() && l.drop_last()[j] == p;
                assert(l[j] == p);
            } else {
                assert(p == l.last());
                assert(l[l.len() - 1] == p);
            }
        }
    }
}

/// Deleting positions from a list without duplicates leaves none.
pub proof fn lemma_kept_no_duplicates(l: Seq<Seq<char>>, gone: Set<int>)
    requires
        l.no_duplicates(),
    ensures
        kept(l, gone).no_duplicates(),
    decreases l.len(),
{
    if l.len() > 0 {
        let rest = kept(l.drop_last(), gone);
        lemma_kept_no_duplicates(l.drop_last(), gone);
        lemma_kept_subset(l.drop_last(), gone);
        if !gone.contains(l.len() - 1) {
            assert(!l.drop_last().contains(l.last()));
            assert(!rest.contains(l.last()));
            assert forall|i: int, j: int|
                0 <= i < rest.push(l.last()).len() && 0 <= j < rest.push(l.last()).len() && i
                    != j implies rest.push(l.last())[i] != rest.push(l.last())[j] by {
                if i < rest.len() && j < rest.len() {
                } else if i < rest.len() {
                    assert(rest.contains(rest[i]));
                } else {
                    assert(rest.contains(rest[j]));
                }
            }
        }
    }
}

/// Adding paths one by one never creates a duplicate, keeps what was there
/// as a prefix in its order, and leaves every added path selected.
pub proof fn lemma_merge_keeps_order(l: Seq<Seq<char>>, items: Seq<Seq<char>>)
    requires
        l.no_duplicates(),
    ensures
        merged(l, items).no_duplicates(),
        merged(l, items).len() >= l.len(),
        merged(l, items).take(l.len() as int) == l,
        forall|p: Seq<char>| items.contains(p) ==> merged(l, items).contains(p),
        forall|p: Seq<char>| #[trigger]
            merged(l, items).contains(p) ==> l.contains(p) || items.contains(p),
    decreases items.len(),
{
    if items.len() > 0 {
        let prev = merged(l, items.drop_last());
        lemma_merge_keeps_order(l, items.drop_last());
        let p = items.last();
        if !prev.contains(p) {
            assert(prev.push(p).take(l.len() as int) =~= prev.take(l.len() as int));
            assert forall|i: int, j: int|
                0 <= i < prev.push(p).len() && 0 <= j < prev.push(p).len() && i
                    != j implies prev.push(p)[i] != prev.push(p)[j] by {
                if i < prev.len() && j < prev.len() {
                } else if i < prev.len() {
                    assert(prev.contains(prev[i]));
                } else {
                    assert(prev.contains(prev[j]));
                }
            }
        }
        assert forall|q: Seq<char>| items.contains(q) implies merged(l, items).contains(q) by {
            let k = choose|k: int| 0 <= k < items.len() && items[k] == q;
            if k < items.len() - 1 {
                assert(items.drop_last()[k] == q);
                assert(items.drop_last().contains(q));
                assert(prev.contains(q));
                if !prev.contains(p) {
                    let m = choose|m: int| 0 <= m < prev.len() && prev[m] == q;
                    assert(prev.push(p)[m] == q);
                }
            } else {
                if !prev.contains(p) {
                    assert(prev.push(p)[prev.len() as int] == q);
                }
            }
        }
        assert forall|q: Seq<char>| #[trigger]
            merged(l, items).contains(q) implies l.contains(q) || items.contains(q) by {
            if prev.contains(q) {
                if items.drop_last().contains(q) {
                    let k = choose|k: int| 0 <= k < items.drop_last().len() && items.drop_last()[k] == q;
                    assert(items[k] == q);
                }
            } else {
                let m = choose|m: int| 0 <= m < prev.push(p).len() && prev.push(p)[m] == q;
                assert(q == p);
                assert(items[items.len() - 1] == q);
            }
        }
    }
}

/// Two rounds of selection in a row add the same as one round over both
/// lists, so any sequence of rounds keeps the guarantees of a single one.
pub proof fn lemma_merge_concat(l: Seq<Seq<char>>, a: Seq<Seq<char>>, b: Seq<Seq<char>>)
    ensures
        merged(merged(l, a), b) == merged(l, a + b),
    decreases b.len(),
{
    if b.len() == 0 {
        assert(a + b =~= a);
    } else {
        lemma_merge_concat(l, a, b.drop_last());
        assert((a + b).drop_last() =~= a + b.drop_last());
        assert((a + b).last() == b.last());
    }
}

/// Adding paths that are all selected already changes nothing.
pub proof fn lemma_merge_present(l: Seq<Seq<char>>, items: Seq<Seq<char>>)
    requires
        forall|p: Seq<char>| items.contains(p) ==> l.contains(p),
    ensures
        merged(l, items) == l,
    decreases items.len(),
{
    if items.len() > 0 {
        assert forall|p: Seq<char>| items.drop_last().contains(p) implies l.contains(p) by {
            let k = choose|k: int| 0 <= k < items.drop_last().len() && items.drop_last()[k] == p;
            assert(items[k] == p);
        }
        lemma_merge_present(l, items.drop_last());
        assert(items.contains(items[items.len() - 1]));
    }
}

/// Selecting the same paths a second time yields the same list as selecting
/// them once.
pub proof fn lemma_merge_idempotent(l: Seq<Seq<char>>, items: Seq<Seq<char>>)
    requires
        l.no_duplicates(),
    ensures
        merged(merged(l, items), items) == merged(l, items),
{
    lemma_merge_keeps_order(l, items);
    lemma_merge_present(merged(l, items), items);
}

} // verus!
