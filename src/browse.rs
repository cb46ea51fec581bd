//! Walking the staging tree one directory at a time and picking entries of
//! the current directory in bulk.

use vstd::prelude::*;
use crate::paths::literal;
use crate::listing::{Entry, entries_view};
use crate::selection::{SelectionList, lemma_merge_idempotent, merged, paths_view};

verus! {

/// `base` followed by each component of `rel`, separated by `/`.
pub open spec fn join_path(base: Seq<char>, rel: Seq<Seq<char>>) -> Seq<char>
    decreases rel.len(),
{
    if rel.len() == 0 {
        base
    } else {
        join_path(base, rel.drop_last()) + seq!['/'] + rel.last()
    }
}

/// Where the browser stands, relative to its root: `/` at the root,
/// otherwise the components joined by `/`.
pub open spec fn location_text(rel: Seq<Seq<char>>) -> Seq<char> {
    if rel.len() == 0 {
        seq!['/']
    } else {
        join_path(rel[0], rel.skip(1))
    }
}

/// The line that shows one entry: its kind, its metadata tag and its name.
pub open spec fn entry_line(e: (Seq<char>, bool), tag: Seq<char>) -> Seq<char> {
    (if e.1 {
        seq!['[', 'D', 'I', 'R', ']', ' ']
    } else {
        seq!['[', 'F', 'I', 'L', 'E', ']', ' ']
    }) + tag + seq![' '] + e.0
}

/// The first option of the menu.
pub open spec fn parent_option() -> Seq<char> {
    seq!['[', '<', '-', ']', ' '] + seq!['P', 'a', 'r', 'e', 'n', 't', ' '] + seq![
        'D',
        'i',
        'r',
        'e',
        'c',
        't',
        'o',
        'r',
        'y',
    ]
}

/// The option that ends browsing.
pub open spec fn finish_option() -> Seq<char> {
    seq!['[', 'D', 'o', 'n', 'e', ' ', 'b', 'r', 'o', 'w', 's', 'i', 'n', 'g', ']']
}

/// The option that picks entries of the current directory in bulk.
pub open spec fn bulk_option() -> Seq<char> {
    seq!['[', 'S', 'e', 'l', 'e', 'c', 't', ' ', 'f', 'i', 'l', 'e', 's', ' '] + seq![
        'i',
        'n',
        ' ',
        'c',
        'u',
        'r',
        'r',
        'e',
        'n',
        't',
        ' ',
    ] + seq!['d', 'i', 'r', 'e', 'c', 't', 'o', 'r', 'y', ']']
}

/// The paths of the entries at positions `checked` of a directory at `dir`.
pub open spec fn checked_paths(
    dir: Seq<char>,
    entries: Seq<(Seq<char>, bool)>,
    checked: Seq<usize>,
) -> Seq<Seq<char>> {
    checked.map_values(|t: usize| dir + seq!['/'] + entries[t as int].0)
}

/// What the caller does after a menu choice.
pub enum BrowseStep {
    /// Show the menu of the (possibly new) current directory.
    Stay,
    /// Ask which entries of the current directory to pick.
    BulkSelect,
    /// Stop browsing and take the picked paths.
    Finish,
}

/// A walk over the tree under `base`: where it stands and what it picked.
pub struct Browser {
    pub base: String,
    pub rel: Vec<String>,
    pub picked: SelectionList,
}

impl Browser {
    /// The picked paths hold no duplicate.
    pub open spec fn wf(&self) -> bool {
        self.picked.wf()
    }

    /// The current directory, as a path.
    pub open spec fn dir_view(&self) -> Seq<char> {
        join_path(self.base@, paths_view(self.rel@))
    }

    /// A walk that starts at `base`, with nothing picked.
    pub fn new(base: String) -> (r: Browser)
        ensures
            r.wf(),
            r.base@ == base@,
            r.rel@.len() == 0,
            r.picked@ == Seq::<Seq<char>>::empty(),
    {
        Browser { base, rel: Vec::new(), picked: SelectionList::new() }
    }

    /// The path of the current directory.
    pub fn current_dir(&self) -> (r: String)
        ensures
            r@ == self.dir_view(),
    {
        let mut out = self.base.clone();
        proof {
            reveal_strlit("/");
        }
        let mut i: usize = 0;
        assert(self.base@ == join_path(self.base@, paths_view(self.rel@).take(0)));
        while i < self.rel.len()
            invariant
                i <= self.rel@.len(),
                out@ == join_path(self.base@, paths_view(self.rel@).take(i as int)),
            decreases self.rel@.len() - i,
        {
            proof {
                reveal_strlit("/");
            }
            out.append("/");
            out.append(self.rel[i].as_str());
            proof {
                assert(paths_view(self.rel@).take(i + 1).last() == self.rel@[i as int]@);
                assert(paths_view(self.rel@).take(i + 1).drop_last() =~= paths_view(
                    self.rel@,
                ).take(i as int));
            }
            i = i + 1;
        }
        proof {
            assert(paths_view(self.rel@).take(i as int) =~= paths_view(self.rel@));
        }
        out
    }

    /// Where the walk stands, relative to its root.
    pub fn location(&self) -> (r: String)
        ensures
            r@ == location_text(paths_view(self.rel@)),
    {
        if self.rel.len() == 0 {
            proof {
                reveal_strlit("/");
            }
            return literal("/");
        }
        let ghost rv = paths_view(self.rel@);
        let mut out = self.rel[0].clone();
        proof {
            reveal_strlit("/");
            assert(out@ == join_path(rv[0], rv.skip(1).take(0)));
        }
        let mut i: usize = 1;
        while i < self.rel.len()
            invariant
                1 <= i <= self.rel@.len(),
                rv == paths_view(self.rel@),
                out@ == join_path(rv[0], rv.skip(1).take(i - 1)),
            decreases self.rel@.len() - i,
        {
            proof {
                reveal_strlit("/");
            }
            out.append("/");
            out.append(self.rel[i].as_str());
            proof {
                assert(rv.skip(1).take(i as int).drop_last() =~= rv.skip(1).take(i - 1));
                assert(rv.skip(1).take(i as int).last() == rv[i as int]);
            }
            i = i + 1;
        }
        proof {
            assert(rv.skip(1).take(i - 1) =~= rv.skip(1));
        }
        out
    }

    /// Takes a menu choice over `entries`, the listing of the current
    /// directory: 0 goes up (not above the root), `1..=n` enters entry
    /// `i - 1` if it is a directory, `n + 1` finishes, `n + 2` asks for a
    /// bulk pick.
    pub fn pick_option(&mut self, entries: &Vec<Entry>, choice: usize) -> (r: BrowseStep)
        requires
            choice < entries@.len() + 3,
        ensures
            final(self).base == old(self).base,
            final(self).picked == old(self).picked,
            choice == 0 ==> r == BrowseStep::Stay && paths_view(final(self).rel@) == (if old(
                self,
            ).rel@.len() == 0 {
                paths_view(old(self).rel@)
            } else {
                paths_view(old(self).rel@).drop_last()
            }),
            1 <= choice <= entries@.len() ==> r == BrowseStep::Stay && paths_view(
                final(self).rel@,
            ) == (if entries@[choice - 1].is_dir {
                paths_view(old(self).rel@).push(entries@[choice - 1].name@)
            } else {
                paths_view(old(self).rel@)
            }),
            choice == entries@.len() + 1 ==> r == BrowseStep::Finish && final(self).rel@ == old(
                self,
            ).rel@,
            choice == entries@.len() + 2 ==> r == BrowseStep::BulkSelect && final(self).rel@
                == old(self).rel@,
    {
        let n = entries.len();
        if choice == 0 {
            if self.rel.len() > 0 {
                self.rel.pop();
                proof {
                    assert(paths_view(self.rel@) =~= paths_view(old(self).rel@).drop_last());
                }
            }
            BrowseStep::Stay
        } else if choice - 1 == n {
            BrowseStep::Finish
        } else if choice - 1 > n {
            BrowseStep::BulkSelect
        } else {
            if entries[choice - 1].is_dir {
                self.rel.push(entries[choice - 1].name.clone());
                proof {
                    assert(paths_view(self.rel@) =~= paths_view(old(self).rel@).push(
                        entries@[choice - 1].name@,
                    ));
                }
            }
            BrowseStep::Stay
        }
    }

    /// Picks the entries at positions `checked` of `entries`, the listing of
    /// the current directory, skipping paths picked before.
    pub fn bulk_select(&mut self, entries: &Vec<Entry>, checked: &Vec<usize>)
        requires
            old(self).wf(),
            forall|t: int| 0 <= t < checked@.len() ==> checked@[t] < entries@.len(),
        ensures
            final(self).wf(),
            final(self).base == old(self).base,
            final(self).rel == old(self).rel,
            final(self).picked@ == merged(
                old(self).picked@,
                checked_paths(old(self).dir_view(), entries_view(entries@), checked@),
            ),
    {
        let dir = self.current_dir();
        let mut paths: Vec<String> = Vec::new();
        let mut t: usize = 0;
        proof {
            reveal_strlit("/");
        }
        while t < checked.len()
            invariant
                t <= checked@.len(),
                dir@ == self.dir_view(),
                forall|u: int| 0 <= u < checked@.len() ==> checked@[u] < entries@.len(),
                paths_view(paths@) == checked_paths(
                    dir@,
                    entries_view(entries@),
                    checked@.take(t as int),
                ),
            decreases checked@.len() - t,
        {
            proof {
                reveal_strlit("/");
            }
            let ghost old_paths = paths;
            let mut p = dir.clone();
            p.append("/");
            p.append(entries[checked[t]].name.as_str());
            let ghost pv = p@;
            paths.push(p);
            proof {
                let c = checked@[t as int] as int;
                assert(entries_view(entries@)[c].0 == entries@[c].name@);
                assert(pv == dir@ + seq!['/'] + entries_view(entries@)[c].0);
                assert(paths_view(paths@) =~= paths_view(old_paths@).push(pv));
                assert(paths_view(paths@) =~= checked_paths(
                    dir@,
                    entries_view(entries@),
                    checked@.take(t + 1),
                ));
            }
            t = t + 1;
        }
        proof {
            assert(checked@.take(t as int) =~= checked@);
        }
        self.picked.add_all(&paths);
    }
}

/// Picking the same entries of the same directory a second time leaves the
/// picked paths as the first pick left them.
pub proof fn lemma_bulk_select_idempotent(
    picked: Seq<Seq<char>>,
    dir: Seq<char>,
    entries: Seq<(Seq<char>, bool)>,
    checked: Seq<usize>,
)
    requires
        picked.no_duplicates(),
    ensures
        merged(merged(picked, checked_paths(dir, entries, checked)), checked_paths(dir, entries, checked))
            == merged(picked, checked_paths(dir, entries, checked)),
{
    lemma_merge_idempotent(picked, checked_paths(dir, entries, checked));
}

/// The lines that show `entries`, each with its metadata tag.
pub fn entry_lines(entries: &Vec<Entry>, tags: &Vec<String>) -> (r: Vec<String>)
    requires
        tags@.len() == entries@.len(),
    ensures
        r@.len() == entries@.len(),
        forall|i: int|
            0 <= i < r@.len() ==> #[trigger] r@[i]@ == entry_line(
                entries_view(entries@)[i],
                tags@[i]@,
            ),
{
    let mut out: Vec<String> = Vec::new();
    let mut i: usize = 0;
    proof {
        reveal_strlit("[DIR] ");
        reveal_strlit("[FILE] ");
        reveal_strlit(" ");
    }
    while i < entries.len()
        invariant
            i <= entries@.len(),
            tags@.len() == entries@.len(),
            out@.len() == i,
            forall|k: int|
                0 <= k < i ==> #[trigger] out@[k]@ == entry_line(
                    entries_view(entries@)[k],
                    tags@[k]@,
                ),
        decreases entries@.len() - i,
    {
        proof {
            reveal_strlit("[DIR] ");
            reveal_strlit("[FILE] ");
            reveal_strlit(" ");
        }
        let mut line = if entries[i].is_dir {
            literal("[DIR] ")
        } else {
            literal("[FILE] ")
        };
        line.append(tags[i].as_str());
        line.append(" ");
        line.append(entries[i].name.as_str());
        out.push(line);
        i = i + 1;
    }
    out
}

/// The menu for a directory with `entries`: the parent option, one line per
/// entry, then the options that finish and that pick in bulk.
pub fn menu_items(entries: &Vec<Entry>, tags: &Vec<String>) -> (r: Vec<String>)
    requires
        tags@.len() == entries@.len(),
    ensures
        r@.len() == entries@.len() + 3,
        r@[0]@ == parent_option(),
        forall|i: int|
            0 <= i < entries@.len() ==> #[trigger] r@[i + 1]@ == entry_line(
                entries_view(entries@)[i],
                tags@[i]@,
            ),
        r@[entries@.len() + 1int]@ == finish_option(),
        r@[entries@.len() + 2int]@ == bulk_option(),
{
    proof {
        reveal_strlit("[<-] Parent Directory");
        reveal_strlit("[Done browsing]");
        reveal_strlit("[Select files in current directory]");
    }
    let mut out: Vec<String> = Vec::new();
    out.push(literal("[<-] Parent Directory"));
    let lines = entry_lines(entries, tags);
    let mut i: usize = 0;
    while i < lines.len()
        invariant
            i <= lines@.len(),
            lines@.len() == entries@.len(),
            out@.len() == i + 1,
            out@[0]@ == parent_option(),
            forall|k: int| 0 <= k < i ==> #[trigger] out@[k + 1] == lines@[k],
        decreases lines@.len() - i,
    {
        out.push(lines[i].clone());
        i = i + 1;
    }
    out.push(literal("[Done browsing]"));
    out.push(literal("[Select files in current directory]"));
    proof {
        assert forall|k: int| 0 <= k < entries@.len() implies #[trigger] out@[k + 1]@
            == entry_line(entries_view(entries@)[k], tags@[k]@) by {
            assert(out@[k + 1] == lines@[k]);
        }
        assert(parent_option() =~= "[<-] Parent Directory"@);
    }
    out
}

} // verus!
