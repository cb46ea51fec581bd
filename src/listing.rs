//! One directory's entries, in display order: directories first, then by
//! name.

use vstd::prelude::*;

verus! {

/// One entry of a directory: its name and whether it is a directory.
pub struct Entry {
    pub name: String,
    pub is_dir: bool,
}

impl Entry {
    /// An entry with the given name and kind.
    pub fn new(name: String, is_dir: bool) -> (r: Entry)
        ensures
            r.name@ == name@,
            r.is_dir == is_dir,
    {
        Entry { name, is_dir }
    }
}

/// An entry as plain values: its name and whether it is a directory.
pub open spec fn entry_view(e: Entry) -> (Seq<char>, bool) {
    (e.name@, e.is_dir)
}

/// The entries of `v` as plain values.
pub open spec fn entries_view(v: Seq<Entry>) -> Seq<(Seq<char>, bool)> {
    v.map_values(|e: Entry| entry_view(e))
}

/// `a` comes strictly before `b` in character order, a proper prefix first.
pub open spec fn name_lt(a: Seq<char>, b: Seq<char>) -> bool
    decreases a.len(),
{
    if a.len() == 0 {
        b.len() > 0
    } else if b.len() == 0 {
        false
    } else if a[0] != b[0] {
        (a[0] as int) < (b[0] as int)
    } else {
        name_lt(a.drop_first(), b.drop_first())
    }
}

/// Entry `a` is listed before entry `b`: directories before files, then by
/// name.
pub open spec fn entry_lt(a: (Seq<char>, bool), b: (Seq<char>, bool)) -> bool {
    (a.1 && !b.1) || (a.1 == b.1 && name_lt(a.0, b.0))
}

/// `s` is in listing order.
pub open spec fn listing_sorted(s: Seq<(Seq<char>, bool)>) -> bool {
    forall|i: int, j: int| 0 <= i < j < s.len() ==> !entry_lt(s[j], s[i])
}

/// Character order is transitive.
pub proof fn lemma_name_lt_transitive(a: Seq<char>, b: Seq<char>, c: Seq<char>)
    requires
        name_lt(a, b),
        name_lt(b, c),
    ensures
        name_lt(a, c),
    decreases a.len(),
{
    if a.len() > 0 && b.len() > 0 && c.len() > 0 && a[0] == b[0] && b[0] == c[0] {
        lemma_name_lt_transitive(a.drop_first(), b.drop_first(), c.drop_first());
    }
}

/// No name comes before itself.
pub proof fn lemma_name_lt_irreflexive(a: Seq<char>)
    ensures
        !name_lt(a, a),
    decreases a.len(),
{
    if a.len() > 0 {
        lemma_name_lt_irreflexive(a.drop_first());
    }
}

/// Of two different names, one comes first.
pub proof fn lemma_name_lt_total(a: Seq<char>, b: Seq<char>)
    requires
        a != b,
    ensures
        name_lt(a, b) || name_lt(b, a),
    decreases a.len(),
{
    if a.len() > 0 && b.len() > 0 && a[0] == b[0] {
        if a.drop_first() == b.drop_first() {
            assert(a =~= seq![a[0]] + a.drop_first());
            assert(b =~= seq![b[0]] + b.drop_first());
        } else {
            lemma_name_lt_total(a.drop_first(), b.drop_first());
        }
    } else if a.len() == 0 && b.len() == 0 {
        assert(a =~= b);
    } else if a.len() > 0 && b.len() > 0 {
        assert(a[0] != b[0]);
        assert((a[0] as int) != (b[0] as int));
    }
}

/// Listing order is transitive.
pub proof fn lemma_entry_lt_transitive(
    a: (Seq<char>, bool),
    b: (Seq<char>, bool),
    c: (Seq<char>, bool),
)
    requires
        entry_lt(a, b),
        entry_lt(b, c),
    ensures
        entry_lt(a, c),
{
    if a.1 == b.1 && b.1 == c.1 {
        lemma_name_lt_transitive(a.0, b.0, c.0);
    }
}

/// Listing order is a strict total order on entries.
pub proof fn lemma_entry_lt_order(a: (Seq<char>, bool), b: (Seq<char>, bool))
    ensures
        !entry_lt(a, a),
        a != b ==> entry_lt(a, b) || entry_lt(b, a),
{
    lemma_name_lt_irreflexive(a.0);
    if a != b && a.1 == b.1 {
        lemma_name_lt_total(a.0, b.0);
    }
}

/// Whether name `a` comes strictly before name `b`.
pub fn name_before(a: &str, b: &str) -> (r: bool)
    ensures
        r == name_lt(a@, b@),
{
    let la = a.unicode_len();
    let lb = b.unicode_len();
    let mut i: usize = 0;
    assert(a@.skip(0) =~= a@);
    assert(b@.skip(0) =~= b@);
    while i < la && i < lb
        invariant
            la == a@.len(),
            lb == b@.len(),
            i <= la,
            i <= lb,
            name_lt(a@, b@) == name_lt(a@.skip(i as int), b@.skip(i as int)),
        decreases la - i,
    {
        let ca = a.get_char(i);
        let cb = b.get_char(i);
        assert(a@.skip(i as int)[0] == ca);
        assert(b@.skip(i as int)[0] == cb);
        if ca != cb {
            return (ca as u32) < (cb as u32);
        }
        assert(a@.skip(i as int).drop_first() =~= a@.skip(i + 1));
        assert(b@.skip(i as int).drop_first() =~= b@.skip(i + 1));
        i = i + 1;
    }
    i == la && i < lb
}

/// Whether entry `a` is listed strictly before entry `b`.
pub fn entry_before(a: &Entry, b: &Entry) -> (r: bool)
    ensures
        r == entry_lt(entry_view(*a), entry_view(*b)),
{
    if a.is_dir != b.is_dir {
        a.is_dir
    } else {
        name_before(a.name.as_str(), b.name.as_str())
    }
}

/// Puts `entries` in listing order: directories before files, each group by
/// name. Entries that compare equal keep their order.
pub fn sort_listing(entries: Vec<Entry>) -> (r: Vec<Entry>)
    ensures
        listing_sorted(entries_view(r@)),
        entries_view(r@).to_multiset() == entries_view(entries@).to_multiset(),
{
    let mut out: Vec<Entry> = Vec::new();
    let mut rest = entries;
    let ghost all = entries_view(rest@);
    proof {
        assert(entries_view(out@) =~= all.skip(rest@.len() as int));
        assert(entries_view(rest@) =~= all.take(rest@.len() as int));
    }
    // entries are taken from the back, and each goes before the equal ones
    // already placed, which came after it
    while rest.len() > 0
        invariant
            rest@.len() <= all.len(),
            entries_view(rest@) == all.take(rest@.len() as int),
            listing_sorted(entries_view(out@)),
            entries_view(out@).to_multiset() == all.skip(rest@.len() as int).to_multiset(),
        decreases rest@.len(),
    {
        let ghost n: int = rest@.len() - 1;
        proof {
            assert(entries_view(rest@)[n] == all[n]);
        }
        let e = rest.pop().unwrap();
        let ghost ev = entry_view(e);
        let mut pos: usize = 0;
        while pos < out.len() && entry_before(&out[pos], &e)
            invariant
                pos <= out@.len(),
                forall|k: int| 0 <= k < pos ==> entry_lt(entry_view(out@[k]), ev),
                ev == entry_view(e),
            decreases out@.len() - pos,
        {
            pos = pos + 1;
        }
        let ghost before = entries_view(out@);
        proof {
            if pos < out@.len() {
                assert(!entry_lt(before[pos as int], ev));
            }
        }
        out.insert(pos, e);
        proof {
            let now = entries_view(out@);
            assert(now =~= before.insert(pos as int, ev));
            assert forall|i: int, j: int| 0 <= i < j < now.len() implies !entry_lt(
                now[j],
                now[i],
            ) by {
                if j < pos {
                } else if i > pos {
                } else if i < pos && j == pos {
                    lemma_entry_lt_order(ev, before[i]);
                    if entry_lt(ev, before[i]) {
                        lemma_entry_lt_transitive(ev, before[i], ev);
                    }
                } else if i < pos {
                } else {
                    // i == pos < j
                    let b = before[j - 1];
                    if entry_lt(b, ev) {
                        if j - 1 == pos {
                        } else {
                            lemma_entry_lt_order(b, before[pos as int]);
                            assert(!entry_lt(b, before[pos as int]));
                            if b == before[pos as int] {
                            } else {
                                lemma_entry_lt_transitive(before[pos as int], b, ev);
                            }
                        }
                    }
                }
            }
            vstd::seq_lib::to_multiset_insert(before, pos as int, ev);
            assert(all.skip(n) =~= seq![ev] + all.skip(n + 1));
            vstd::seq_lib::lemma_seq_union_to_multiset_commutative(seq![ev], all.skip(n + 1));
            vstd::seq_lib::to_multiset_build(all.skip(n + 1), ev);
            assert(all.skip(n + 1) + seq![ev] =~= all.skip(n + 1).push(ev));
            assert(entries_view(rest@) =~= all.take(n));
        }
    }
    proof {
        assert(all.skip(0) =~= all);
    }
    out
}

} // verus!
