//! The top-level selection session: which action a menu choice means, and
//! how each action changes the selection.

use vstd::prelude::*;
use crate::paths::literal;
use crate::selection::{SelectionList, index_set, kept, merged, paths_view};

verus! {

/// The actions of the main menu, in menu order.
#[derive(PartialEq, Eq, Structural)]
pub enum MenuAction {
    Browse,
    Search,
    Edit,
    Extract,
    Exit,
}

/// The action at position `index` of the main menu.
pub open spec fn action_spec(index: nat) -> MenuAction {
    if index == 0 {
        MenuAction::Browse
    } else if index == 1 {
        MenuAction::Search
    } else if index == 2 {
        MenuAction::Edit
    } else if index == 3 {
        MenuAction::Extract
    } else {
        MenuAction::Exit
    }
}

/// The paths at positions `checked` of `matches`.
pub open spec fn picked_of(matches: Seq<Seq<char>>, checked: Seq<usize>) -> Seq<Seq<char>> {
    checked.map_values(|t: usize| matches[t as int])
}

/// The paths of `list` whose copy, at the same position of `done`, failed.
pub open spec fn failed_of(list: Seq<Seq<char>>, done: Seq<bool>) -> Seq<Seq<char>>
    decreases list.len(),
{
    if list.len() == 0 {
        list
    } else {
        let rest = failed_of(list.drop_last(), done.take(list.len() - 1));
        if done[list.len() - 1] {
            rest
        } else {
            rest.push(list.last())
        }
    }
}

/// The labels of the main menu, in menu order.
pub fn menu_labels() -> (r: Vec<String>)
    ensures
        r@.len() == 5,
        r@[0]@ == "Browse files"@,
        r@[1]@ == "Search for files"@,
        r@[2]@ == "Edit selected files"@,
        r@[3]@ == "Extract selected files"@,
        r@[4]@ == "Exit"@,
{
    let mut v: Vec<String> = Vec::new();
    v.push(literal("Browse files"));
    v.push(literal("Search for files"));
    v.push(literal("Edit selected files"));
    v.push(literal("Extract selected files"));
    v.push(literal("Exit"));
    v
}

/// The action that position `index` of the main menu stands for.
pub fn action_at(index: usize) -> (r: MenuAction)
    requires
        index < 5,
    ensures
        r == action_spec(index as nat),
{
    if index == 0 {
        MenuAction::Browse
    } else if index == 1 {
        MenuAction::Search
    } else if index == 2 {
        MenuAction::Edit
    } else if index == 3 {
        MenuAction::Extract
    } else {
        MenuAction::Exit
    }
}

/// One session over a staging directory: what the operator has selected.
pub struct SelectionEngine {
    pub staging: String,
    pub selected: SelectionList,
}

impl SelectionEngine {
    /// The selection holds no duplicate.
    pub open spec fn wf(&self) -> bool {
        self.selected.wf()
    }

    /// A session over `staging` with nothing selected.
    pub fn new(staging: String) -> (r: SelectionEngine)
        ensures
            r.wf(),
            r.staging@ == staging@,
            r.selected@ == Seq::<Seq<char>>::empty(),
    {
        SelectionEngine { staging, selected: SelectionList::new() }
    }

    /// Whether `action` has nothing to work on: editing or extracting while
    /// nothing is selected.
    pub fn has_nothing_to_do(&self, action: &MenuAction) -> (r: bool)
        ensures
            r == ((*action == MenuAction::Edit || *action == MenuAction::Extract)
                && self.selected@.len() == 0),
    {
        match action {
            MenuAction::Edit | MenuAction::Extract => self.selected.is_empty(),
            _ => false,
        }
    }

    /// Adds the paths a walk picked, skipping those selected already.
    pub fn merge_browsed(&mut self, picked: &Vec<String>)
        requires
            old(self).wf(),
        ensures
            final(self).wf(),
            final(self).staging == old(self).staging,
            final(self).selected@ == merged(old(self).selected@, paths_view(picked@)),
    {
        self.selected.add_all(picked);
    }

    /// Adds the search matches at positions `checked`, skipping those
    /// selected already.
    pub fn add_search_picks(&mut self, matches: &Vec<String>, checked: &Vec<usize>)
        requires
            old(self).wf(),
            forall|t: int| 0 <= t < checked@.len() ==> checked@[t] < matches@.len(),
        ensures
            final(self).wf(),
            final(self).staging == old(self).staging,
            final(self).selected@ == merged(
                old(self).selected@,
                picked_of(paths_view(matches@), checked@),
            ),
    {
        let mut picked: Vec<String> = Vec::new();
        let mut t: usize = 0;
        while t < checked.len()
            invariant
                t <= checked@.len(),
                forall|u: int| 0 <= u < checked@.len() ==> checked@[u] < matches@.len(),
                paths_view(picked@) == picked_of(paths_view(matches@), checked@.take(t as int)),
            decreases checked@.len() - t,
        {
            let ghost before = picked@;
            let c = matches[checked[t]].clone();
            assert(c@ == matches@[checked@[t as int] as int]@);
            picked.push(c);
            proof {
                assert(paths_view(picked@) =~= paths_view(before).push(
                    paths_view(matches@)[checked@[t as int] as int],
                ));
                assert(paths_view(picked@) =~= picked_of(
                    paths_view(matches@),
                    checked@.take(t + 1),
                ));
            }
            t = t + 1;
        }
        proof {
            assert(checked@.take(t as int) =~= checked@);
        }
        self.selected.add_all(&picked);
    }

    /// Deselects the paths at the positions checked in the edit prompt.
    pub fn remove_checked(&mut self, checked: &Vec<usize>)
        requires
            old(self).wf(),
        ensures
            final(self).wf(),
            final(self).staging == old(self).staging,
            final(self).selected@ == kept(old(self).selected@, index_set(checked@)),
    {
        self.selected.remove_indices(checked);
    }

    /// The paths to copy on extraction: every selected path, in order.
    pub fn extraction_targets(&self) -> (r: Vec<String>)
        ensures
            paths_view(r@) == self.selected@,
    {
        let v = self.selected.paths();
        let mut out: Vec<String> = Vec::new();
        let mut i: usize = 0;
        while i < v.len()
            invariant
                i <= v@.len(),
                paths_view(v@) == self.selected@,
                paths_view(out@) == paths_view(v@).take(i as int),
            decreases v@.len() - i,
        {
            let ghost before = out@;
            let c = v[i].clone();
            assert(c@ == v@[i as int]@);
            out.push(c);
            proof {
                assert(paths_view(out@) =~= paths_view(before).push(paths_view(v@)[i as int]));
                assert(paths_view(out@) =~= paths_view(v@).take(i + 1));
            }
            i = i + 1;
        }
        proof {
            assert(paths_view(v@).take(i as int) =~= paths_view(v@));
        }
        out
    }

    /// The selected paths whose copy failed, given each copy's outcome in
    /// selection order; the selection itself is left as it is, so the next
    /// extraction tries them again.
    pub fn extraction_failures(&self, done: &Vec<bool>) -> (r: Vec<String>)
        requires
            done@.len() == self.selected@.len(),
        ensures
            paths_view(r@) == failed_of(self.selected@, done@),
    {
        let v = self.selected.paths();
        let ghost l = self.selected@;
        let mut out: Vec<String> = Vec::new();
        let mut i: usize = 0;
        while i < v.len()
            invariant
                i <= v@.len(),
                paths_view(v@) == l,
                done@.len() == l.len(),
                paths_view(out@) == failed_of(l.take(i as int), done@.take(i as int)),
            decreases v@.len() - i,
        {
            let ghost before = out@;
            if !done[i] {
                out.push(v[i].clone());
            }
            proof {
                assert(l.take(i + 1).drop_last() =~= l.take(i as int));
                assert(done@.take(i + 1).take(i as int) =~= done@.take(i as int));
                assert(l.take(i + 1).last() == l[i as int]);
                if !done@[i as int] {
                    assert(paths_view(out@) =~= paths_view(before).push(l[i as int]));
                }
            }
            i = i + 1;
        }
        proof {
            assert(l.take(i as int) =~= l);
            assert(done@.take(i as int) =~= done@);
        }
        out
    }
}

/// A path whose copy failed stays selected: it is among the paths the next
/// extraction copies.
pub proof fn lemma_failed_still_selected(list: Seq<Seq<char>>, done: Seq<bool>)
    requires
        done.len() == list.len(),
    ensures
        forall|p: Seq<char>| #[trigger] failed_of(list, done).contains(p) ==> list.contains(p),
    decreases list.len(),
{
    if list.len() > 0 {
        let rest = failed_of(list.drop_last(), done.take(list.len() - 1));
        lemma_failed_still_selected(list.drop_last(), done.take(list.len() - 1));
        assert forall|p: Seq<char>| #[trigger] failed_of(list, done).contains(p) implies list.contains(
            p,
        ) by {
            if rest.contains(p) {
                assert(list.drop_last().contains(p));
                let j = choose|j: int| 0 <= j < list.drop_last().len() && list.drop_last()[j] == p;
                assert(list[j] == p);
            } else {
                assert(list[list.len() - 1] == p);
            }
        }
    }
}

} // verus!
