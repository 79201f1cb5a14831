//! Walking a tree with an explicit worklist. The walk hands out one
//! directory at a time; the caller lists it and feeds the listing back.

use vstd::prelude::*;
use vstd::string::*;

use crate::entry::Entry;
use crate::entry::EntryView;
use crate::entry::entry_views;
use crate::entry::readable_only;
use crate::lines::string_views;

verus! {

/// The directories that a walk has still to list.
pub struct Walk {
    pending: Vec<String>,
}

impl View for Walk {
    type V = Seq<Seq<char>>;

    closed spec fn view(&self) -> Seq<Seq<char>> {
        string_views(self.pending@)
    }
}

/// The pick of the directories that a walk descends into: those that
/// could be read.
pub open spec fn pick_open_dirs() -> spec_fn(EntryView) -> bool {
    |e: EntryView| e.readable && e.is_dir
}

/// The paths of the directories of a listing that a walk descends into.
pub open spec fn dirs_to_visit(listing: Seq<EntryView>) -> Seq<Seq<char>> {
    listing.filter(pick_open_dirs()).map_values(|e: EntryView| e.path)
}

impl Walk {
    /// A walk that starts at `root`.
    pub fn new(root: String) -> (walk: Walk)
        ensures
            walk@ == seq![root@],
    {
        let mut pending: Vec<String> = Vec::new();
        pending.push(root);
        assert(string_views(pending@) =~= seq![root@]);
        Walk { pending }
    }

    /// The directory to list next: the one found last. `None` when the
    /// walk is over.
    pub fn next_dir(&mut self) -> (dir: Option<String>)
        ensures
            match dir {
                Some(path) => old(self)@.len() > 0 && path@ == old(self)@.last() && final(self)@
                    == old(self)@.drop_last(),
                None => old(self)@.len() == 0 && final(self)@ == old(self)@,
            },
    {
        let ghost before = self.pending@;
        let dir = self.pending.pop();
        proof {
            if dir is Some {
                assert(string_views(self.pending@) =~= string_views(before).drop_last());
            }
        }
        dir
    }

    /// Takes the listing of a directory. Every entry of it that could be
    /// read is handed on, once and in order; the others are dropped in
    /// silence. The readable directories among them are put on the
    /// worklist, to be listed in their turn.
    pub fn feed(&mut self, listing: Vec<Entry>) -> (found: Vec<Entry>)
        ensures
            entry_views(found@) == readable_only(entry_views(listing@)),
            final(self)@ == old(self)@ + dirs_to_visit(entry_views(listing@)),
    {
        let ghost all = entry_views(listing@);
        let ghost before = self@;
        let mut found: Vec<Entry> = Vec::new();
        let mut at: usize = 0;
        assert(all.subrange(0, 0) =~= Seq::<EntryView>::empty());
        assert(self@ =~= before + dirs_to_visit(all.subrange(0, 0)));
        while at < listing.len()
            invariant
                at <= listing.len(),
                all == entry_views(listing@),
                entry_views(found@) =~= readable_only(all.subrange(0, at as int)),
                self@ =~= before + dirs_to_visit(all.subrange(0, at as int)),
            decreases listing.len() - at,
        {
            let entry = &listing[at];
            proof {
                let seen = all.subrange(0, at as int);
                assert(all.subrange(0, at + 1) =~= seen.push(all[at as int]));
                seen.lemma_filter_push(all[at as int], pick_open_dirs());
                seen.lemma_filter_push(all[at as int], |e: EntryView| e.readable);
                assert(seen.filter(pick_open_dirs()).push(all[at as int]).map_values(
                    |e: EntryView| e.path,
                ) =~= seen.filter(pick_open_dirs()).map_values(|e: EntryView| e.path).push(
                    all[at as int].path,
                ));
            }
            if entry.readable {
                if entry.is_dir {
                    let ghost queued = self.pending@;
                    self.pending.push(entry.path.clone());
                    assert(string_views(self.pending@) =~= string_views(queued).push(entry.path@));
                }
                let ghost kept = found@;
                found.push(entry.clone());
                assert(entry_views(found@) =~= entry_views(kept).push(entry@));
            }
            at = at + 1;
        }
        assert(all.subrange(0, at as int) =~= all);
        found
    }

    /// Whether directories are left to list.
    pub fn is_done(&self) -> (yes: bool)
        ensures
            yes == (self@.len() == 0),
    {
        self.pending.len() == 0
    }
}

} // verus!
