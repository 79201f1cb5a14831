//! File-system entries as the scan sees them.

use vstd::prelude::*;
use vstd::string::*;

verus! {

/// One node of the file system met during a walk.
#[derive(Debug, PartialEq, Eq)]
pub struct Entry {
    /// The path by which the walk reached the node.
    pub path: String,
    /// The last component of the path: the node's own name.
    pub name: String,
    /// Whether the node is a directory.
    pub is_dir: bool,
    /// Whether the walk could read the node's metadata.
    pub readable: bool,
}

/// The mathematical value of an [`Entry`].
pub struct EntryView {
    pub path: Seq<char>,
    pub name: Seq<char>,
    pub is_dir: bool,
    pub readable: bool,
}

impl View for Entry {
    type V = EntryView;

    open spec fn view(&self) -> EntryView {
        EntryView {
            path: self.path@,
            name: self.name@,
            is_dir: self.is_dir,
            readable: self.readable,
        }
    }
}

impl Clone for Entry {
    fn clone(&self) -> (copy: Self)
        ensures
            copy == *self,
    {
        Entry {
            path: self.path.clone(),
            name: self.name.clone(),
            is_dir: self.is_dir,
            readable: self.readable,
        }
    }
}

impl Entry {
    /// An entry from its parts.
    pub fn new(path: String, name: String, is_dir: bool, readable: bool) -> (entry: Entry)
        ensures
            entry.path == path,
            entry.name == name,
            entry.is_dir == is_dir,
            entry.readable == readable,
    {
        Entry { path, name, is_dir, readable }
    }
}

/// The views of a run of entries.
pub open spec fn entry_views(entries: Seq<Entry>) -> Seq<EntryView> {
    entries.map_values(|e: Entry| e@)
}

/// The readable entries of a walk, in the order of the walk.
pub open spec fn readable_only(entries: Seq<EntryView>) -> Seq<EntryView> {
    entries.filter(|e: EntryView| e.readable)
}

/// Drops the entries whose metadata could not be read. They are no failure
/// of the scan: they simply do not take part in it.
pub fn readable_entries(walked: Vec<Entry>) -> (kept: Vec<Entry>)
    ensures
        entry_views(kept@) == readable_only(entry_views(walked@)),
{
    let mut kept: Vec<Entry> = Vec::new();
    let ghost all = entry_views(walked@);
    let mut walked = walked;
    let mut at: usize = 0;
    let total = walked.len();
    assert(all.subrange(0, 0) =~= Seq::<EntryView>::empty());
    while at < total
        invariant
            at <= total,
            total == walked.len(),
            entry_views(walked@) == all,
            entry_views(kept@) =~= readable_only(all.subrange(0, at as int)),
        decreases total - at,
    {
        let entry = walked[at].clone();
        proof {
            let so_far = all.subrange(0, at as int);
            let next = all.subrange(0, at + 1);
            assert(next =~= so_far.push(all[at as int]));
            so_far.lemma_filter_push(all[at as int], |e: EntryView| e.readable);
        }
        if entry.readable {
            let ghost before = kept@;
            kept.push(entry);
            assert(entry_views(kept@) =~= entry_views(before).push(entry@));
        }
        at = at + 1;
    }
    assert(all.subrange(0, at as int) =~= all);
    kept
}

} // verus!
