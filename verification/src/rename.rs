//! Planning renames: which entries move, where to, and whether the batch may
//! be applied at all. Nothing here touches the file system; a plan is data
//! for the caller to carry out.

use vstd::prelude::*;
use vstd::relations::*;
use vstd::seq_lib::*;
use vstd::string::*;

use crate::entry::Entry;
use crate::entry::EntryView;
use crate::entry::entry_views;
use crate::outcome::ActionOutcome;
use crate::outcome::FailureCause;
use crate::order::RankKey;
use crate::order::key_before;
use crate::order::key_leq;
use crate::order::key_order;
use crate::order::lemma_key_order_total;
use crate::outcome::OutcomeView;
use crate::pattern::Pattern;
use crate::pattern::leftmost_match;
use crate::pattern::substituted;
use crate::text::decimal;
use crate::text::decimal_string;
use crate::text::file_extension;
use crate::text::hidden;
use crate::text::is_hidden;
use crate::text::suffix;
use crate::text::trim;
use crate::text::trimmed;

verus! {

/// One planned move of a file.
#[derive(Debug, PartialEq, Eq)]
pub struct Rename {
    /// The path the file has now.
    pub from: String,
    /// The path it is to have.
    pub to: String,
}

/// The mathematical value of a [`Rename`].
pub struct RenameView {
    pub from: Seq<char>,
    pub to: Seq<char>,
}

impl View for Rename {
    type V = RenameView;

    open spec fn view(&self) -> RenameView {
        RenameView { from: self.from@, to: self.to@ }
    }
}

impl Clone for Rename {
    fn clone(&self) -> (copy: Self)
        ensures
            copy == *self,
    {
        Rename { from: self.from.clone(), to: self.to.clone() }
    }
}

/// The views of a run of renames.
pub open spec fn rename_views(renames: Seq<Rename>) -> Seq<RenameView> {
    renames.map_values(|r: Rename| r@)
}

/// An entry can be renamed when it is a readable file that is not hidden.
pub open spec fn renamable(e: EntryView) -> bool {
    !e.is_dir && e.readable && !hidden(e.name)
}

/// Tells whether an entry can be renamed.
pub fn is_renamable(entry: &Entry) -> (yes: bool)
    ensures
        yes == renamable(entry@),
{
    !entry.is_dir && entry.readable && !is_hidden(entry.name.as_str())
}

/// The entries that a pattern picks for renaming: the renamable ones whose
/// path it matches.
pub open spec fn pattern_picks(pattern: Seq<char>) -> spec_fn(EntryView) -> bool {
    |e: EntryView| renamable(e) && leftmost_match(pattern, e.path).is_some()
}

/// Where the substitution sends a path: every match replaced, and the
/// result trimmed.
pub open spec fn substituted_path(
    pattern: Seq<char>,
    replacement: Seq<char>,
    path: Seq<char>,
) -> Seq<char> {
    trimmed(substituted(pattern, path, replacement))
}

/// The move that the substitution makes of an entry.
pub open spec fn substitution_move(pattern: Seq<char>, replacement: Seq<char>) -> spec_fn(
    EntryView,
) -> RenameView {
    |e: EntryView|
        RenameView { from: e.path, to: substituted_path(pattern, replacement, e.path) }
}

/// The moves that a substitution asks for in a directory listing, in the
/// order of the listing.
pub open spec fn substitution_plan(
    pattern: Seq<char>,
    replacement: Seq<char>,
    listing: Seq<EntryView>,
) -> Seq<RenameView> {
    listing.filter(pattern_picks(pattern)).map_values(substitution_move(pattern, replacement))
}

/// The move takes a renamable entry of the listing, whose path the pattern
/// matches, to where the substitution sends that path.
pub open spec fn substitutes_entry(
    pattern: Seq<char>,
    replacement: Seq<char>,
    listing: Seq<EntryView>,
    step: RenameView,
) -> bool {
    exists|j: int|
        0 <= j < listing.len() && pattern_picks(pattern)(#[trigger] listing[j]) && step
            == substitution_move(pattern, replacement)(listing[j])
}

/// Every move of a substitution plan takes a renamable entry that the
/// pattern matches: no directory, no hidden file and no unreadable entry
/// is ever moved.
pub proof fn lemma_substitution_plan_sound(
    pattern: Seq<char>,
    replacement: Seq<char>,
    listing: Seq<EntryView>,
)
    ensures
        forall|i: int|
            0 <= i < substitution_plan(pattern, replacement, listing).len() ==> substitutes_entry(
                pattern,
                replacement,
                listing,
                #[trigger] substitution_plan(pattern, replacement, listing)[i],
            ),
{
    let picked = listing.filter(pattern_picks(pattern));
    let plan = substitution_plan(pattern, replacement, listing);
    assert forall|i: int| 0 <= i < plan.len() implies substitutes_entry(
        pattern,
        replacement,
        listing,
        #[trigger] plan[i],
    ) by {
        listing.lemma_filter_pred(pattern_picks(pattern), i);
        assert(picked.contains(picked[i]));
        listing.lemma_filter_contains_rev(pattern_picks(pattern), picked[i]);
        let j = choose|j: int| 0 <= j < listing.len() && listing[j] == picked[i];
        assert(pattern_picks(pattern)(listing[j]));
    }
}

/// Computes the moves that replacing `pattern` by `replacement` in the paths
/// of `listing` asks for. Directories, unreadable entries, hidden files and
/// files whose path the pattern does not match stay out.
pub fn substitution_candidates(pattern: &Pattern, replacement: &str, listing: &Vec<Entry>) -> (plan:
    Vec<Rename>)
    ensures
        rename_views(plan@) == substitution_plan(pattern@, replacement@, entry_views(listing@)),
{
    let ghost all = entry_views(listing@);
    let mut plan: Vec<Rename> = Vec::new();
    let mut at: usize = 0;
    assert(all.subrange(0, 0) =~= Seq::<EntryView>::empty());
    while at < listing.len()
        invariant
            at <= listing.len(),
            all == entry_views(listing@),
            rename_views(plan@) =~= substitution_plan(
                pattern@,
                replacement@,
                all.subrange(0, at as int),
            ),
        decreases listing.len() - at,
    {
        let entry = &listing[at];
        proof {
            let seen = all.subrange(0, at as int);
            assert(all.subrange(0, at + 1) =~= seen.push(all[at as int]));
            seen.lemma_filter_push(all[at as int], pattern_picks(pattern@));
        }
        if is_renamable(entry) && pattern.is_match(entry.path.as_str()) {
            let replaced = pattern.replace_all(entry.path.as_str(), replacement);
            let to = trim(replaced.as_str()).to_owned();
            let ghost before = plan@;
            let ghost picked = all.subrange(0, at as int).filter(pattern_picks(pattern@));
            plan.push(Rename { from: entry.path.clone(), to });
            assert(rename_views(plan@) =~= rename_views(before).push(plan@.last()@));
            assert(picked.push(all[at as int]).map_values(
                substitution_move(pattern@, replacement@),
            ) =~= picked.map_values(substitution_move(pattern@, replacement@)).push(
                substitution_move(pattern@, replacement@)(all[at as int]),
            ));
        }
        at = at + 1;
    }
    assert(all.subrange(0, at as int) =~= all);
    plan
}


/// A candidate move together with what the caller found at its destination:
/// `true` when something already exists there.
pub open spec fn probed_views(probed: Seq<(Rename, bool)>) -> Seq<(RenameView, bool)> {
    probed.map_values(|p: (Rename, bool)| (p.0@, p.1))
}

/// The moves of a probed batch, without the probes.
pub open spec fn moves_of(probed: Seq<(RenameView, bool)>) -> Seq<RenameView> {
    probed.map_values(|p: (RenameView, bool)| p.0)
}

/// Some destination of the batch is already taken on disk.
pub open spec fn hits_existing(probed: Seq<(RenameView, bool)>) -> bool {
    exists|i: int| 0 <= i < probed.len() && (#[trigger] probed[i]).1
}

/// Two moves of the batch share a destination.
pub open spec fn shares_destination(probed: Seq<(RenameView, bool)>) -> bool {
    exists|i: int, j: int|
        0 <= i < j < probed.len() && (#[trigger] probed[i]).0.to == (#[trigger] probed[j]).0.to
}

/// A destination of the batch is the present path of a file of the batch.
pub open spec fn overwrites_source(probed: Seq<(RenameView, bool)>) -> bool {
    exists|i: int, j: int|
        0 <= i < probed.len() && 0 <= j < probed.len() && (#[trigger] probed[i]).0.to == (
        #[trigger] probed[j]).0.from
}

/// A batch collides when applying it could overwrite a file: a destination
/// exists already, is the destination of another move, or is the source of a
/// move.
pub open spec fn collides(probed: Seq<(RenameView, bool)>) -> bool {
    hits_existing(probed) || shares_destination(probed) || overwrites_source(probed)
}

/// Whether move `i` of the batch is in the way of applying it: its
/// destination exists already, is the destination of another move of the
/// batch, or is the present path of a file of the batch.
pub open spec fn clashes_at(probed: Seq<(RenameView, bool)>, i: int) -> bool {
    ||| probed[i].1
    ||| exists|j: int|
        0 <= j < probed.len() && j != i && (#[trigger] probed[j]).0.to == probed[i].0.to
    ||| exists|j: int| 0 <= j < probed.len() && probed[i].0.to == (#[trigger] probed[j]).0.from
}

/// A batch collides exactly when one of its moves clashes.
pub proof fn lemma_collides_by_index(probed: Seq<(RenameView, bool)>)
    ensures
        collides(probed) <==> exists|i: int|
            0 <= i < probed.len() && #[trigger] clashes_at(probed, i),
{
    if collides(probed) {
        if hits_existing(probed) {
            let i = choose|i: int| 0 <= i < probed.len() && (#[trigger] probed[i]).1;
            assert(clashes_at(probed, i));
        } else if shares_destination(probed) {
            let (i, j) = choose|i: int, j: int|
                0 <= i < j < probed.len() && (#[trigger] probed[i]).0.to == (
                #[trigger] probed[j]).0.to;
            assert(clashes_at(probed, j));
        } else {
            let (i, j) = choose|i: int, j: int|
                0 <= i < probed.len() && 0 <= j < probed.len() && (#[trigger] probed[i]).0.to == (
                #[trigger] probed[j]).0.from;
            assert(clashes_at(probed, i));
        }
    }
    if exists|i: int| 0 <= i < probed.len() && #[trigger] clashes_at(probed, i) {
        let i = choose|i: int| 0 <= i < probed.len() && #[trigger] clashes_at(probed, i);
        if probed[i].1 {
            assert(hits_existing(probed));
        } else if exists|j: int|
            0 <= j < probed.len() && j != i && (#[trigger] probed[j]).0.to == probed[i].0.to {
            let j = choose|j: int|
                0 <= j < probed.len() && j != i && (#[trigger] probed[j]).0.to == probed[i].0.to;
            if j < i {
                assert(probed[j].0.to == probed[i].0.to);
            } else {
                assert(probed[i].0.to == probed[j].0.to);
            }
            assert(shares_destination(probed));
        } else {
            let j = choose|j: int|
                0 <= j < probed.len() && probed[i].0.to == (#[trigger] probed[j]).0.from;
            assert(probed[i].0.to == probed[j].0.from);
            assert(overwrites_source(probed));
        }
    }
}

/// Tells whether move `at` of the batch clashes.
fn clashes(probed: &Vec<(Rename, bool)>, at: usize) -> (yes: bool)
    requires
        at < probed.len(),
    ensures
        yes == clashes_at(probed_views(probed@), at as int),
{
    let ghost views = probed_views(probed@);
    if probed[at].1 {
        return true;
    }
    let mut j: usize = 0;
    while j < probed.len()
        invariant
            j <= probed.len(),
            at < probed.len(),
            views == probed_views(probed@),
            forall|k: int|
                0 <= k < j && k != at ==> (#[trigger] views[k]).0.to != views[at as int].0.to,
            forall|k: int| 0 <= k < j ==> views[at as int].0.to != (#[trigger] views[k]).0.from,
        decreases probed.len() - j,
    {
        if j != at && probed[j].0.to == probed[at].0.to {
            assert(views[j as int].0.to == views[at as int].0.to);
            return true;
        }
        if probed[at].0.to == probed[j].0.from {
            assert(views[at as int].0.to == views[j as int].0.from);
            return true;
        }
        j = j + 1;
    }
    false
}

/// The first move of the batch that clashes, if the batch collides.
pub fn first_collision(probed: &Vec<(Rename, bool)>) -> (found: Option<usize>)
    ensures
        match found {
            Some(at) => {
                &&& at < probed.len()
                &&& clashes_at(probed_views(probed@), at as int)
                &&& forall|i: int| 0 <= i < at ==> !#[trigger] clashes_at(probed_views(probed@), i)
                &&& collides(probed_views(probed@))
            },
            None => !collides(probed_views(probed@)),
        },
{
    let ghost views = probed_views(probed@);
    proof {
        lemma_collides_by_index(views);
    }
    let mut at: usize = 0;
    while at < probed.len()
        invariant
            at <= probed.len(),
            views == probed_views(probed@),
            forall|i: int| 0 <= i < at ==> !#[trigger] clashes_at(views, i),
        decreases probed.len() - at,
    {
        if clashes(probed, at) {
            return Some(at);
        }
        at = at + 1;
    }
    None
}

/// Decides whether a probed batch may be applied. In a dry run nothing is
/// applied and nothing can fail. Otherwise the batch is all or nothing: one
/// collision anywhere refuses every move, and a batch without collision is
/// handed back whole, in order.
pub fn settle(probed: Vec<(Rename, bool)>, dry_run: bool) -> (verdict: Result<
    Vec<Rename>,
    FailureCause,
>)
    ensures
        match verdict {
            Ok(moves) => {
                &&& dry_run || !collides(probed_views(probed@))
                &&& rename_views(moves@) == if dry_run {
                    Seq::<RenameView>::empty()
                } else {
                    moves_of(probed_views(probed@))
                }
            },
            Err(cause) => cause == FailureCause::Collision && !dry_run && collides(
                probed_views(probed@),
            ),
        },
{
    let ghost views = probed_views(probed@);
    let mut moves: Vec<Rename> = Vec::new();
    if dry_run {
        assert(rename_views(moves@) =~= Seq::<RenameView>::empty());
        return Ok(moves);
    }
    if first_collision(&probed).is_some() {
        return Err(FailureCause::Collision);
    }
    let mut at: usize = 0;
    while at < probed.len()
        invariant
            at <= probed.len(),
            views == probed_views(probed@),
            rename_views(moves@) =~= moves_of(views.subrange(0, at as int)),
        decreases probed.len() - at,
    {
        let ghost before = moves@;
        moves.push(probed[at].0.clone());
        assert(rename_views(moves@) =~= rename_views(before).push(views[at as int].0));
        assert(views.subrange(0, at + 1) =~= views.subrange(0, at as int).push(views[at as int]));
        at = at + 1;
    }
    assert(views.subrange(0, at as int) =~= views);
    Ok(moves)
}

/// What is reported of a move that was tried: renamed, or failed for the
/// cause that the file system gave.
pub open spec fn move_result(step: RenameView, failure: Option<FailureCause>) -> OutcomeView {
    match failure {
        Some(cause) => OutcomeView::Failed { cause },
        None => OutcomeView::Renamed { from: step.from, to: step.to },
    }
}

/// The outcome of carrying out one move.
pub fn rename_outcome(rename: Rename, failure: Option<FailureCause>) -> (outcome: ActionOutcome)
    ensures
        outcome@ == move_result(rename@, failure),
{
    match failure {
        Some(cause) => ActionOutcome::Failed { cause },
        None => ActionOutcome::Renamed { from: rename.from, to: rename.to },
    }
}


/// The pick of the entries that can be renamed.
pub open spec fn pick_renamable() -> spec_fn(EntryView) -> bool {
    |e: EntryView| renamable(e)
}

/// What an entry is ranked by.
pub open spec fn rank_key() -> spec_fn(EntryView) -> RankKey {
    |e: EntryView| (e.name, e.path)
}

/// The keys of the entries of a listing that can be renamed, in the order
/// of the listing.
pub open spec fn picked_keys(listing: Seq<EntryView>) -> Seq<RankKey> {
    listing.filter(pick_renamable()).map_values(rank_key())
}

/// The entries of a listing that can be renamed, ranked: by name, in the
/// order of the bytes, whatever the order of the listing.
pub open spec fn ranked(listing: Seq<EntryView>) -> Seq<RankKey> {
    picked_keys(listing).sort_by(key_order())
}

/// The file name that numbering gives: the index in decimal, and the old
/// name's extension kept.
pub open spec fn numbered_name(index: nat, name: Seq<char>) -> Seq<char> {
    decimal(index) + suffix(name)
}

/// The path that numbering gives inside the directory `root`.
pub open spec fn numbered_path(
    root: Seq<char>,
    separator: Seq<char>,
    index: nat,
    name: Seq<char>,
) -> Seq<char> {
    root + separator + numbered_name(index, name)
}

/// The moves that numbering the files of a directory asks for: the
/// renamable entries of the listing, each numbered by its rank among them,
/// from zero, and in the order of their ranks.
pub open spec fn numbering_plan(
    root: Seq<char>,
    separator: Seq<char>,
    listing: Seq<EntryView>,
) -> Seq<RenameView> {
    let chosen = ranked(listing);
    Seq::new(
        chosen.len(),
        |k: int|
            RenameView {
                from: chosen[k].1,
                to: numbered_path(root, separator, k as nat, chosen[k].0),
            },
    )
}

/// Whether an entry is another than the file with the key given: an entry
/// that stays as it is, or another file that moves.
pub open spec fn is_another(e: EntryView, key: RankKey) -> bool {
    !(renamable(e) && rank_key()(e) == key)
}

/// Numbering is blocked when the new name of a file is the present name of
/// another entry of the listing, be it one that stays or one that moves: no
/// file is ever written where another one is.
pub open spec fn numbering_blocked(listing: Seq<EntryView>) -> bool {
    let chosen = ranked(listing);
    exists|k: int, j: int|
        0 <= k < chosen.len() && 0 <= j < listing.len() && is_another(listing[j], chosen[k])
            && #[trigger] numbered_name(k as nat, chosen[k].0) == (#[trigger] listing[j]).name
}

/// The keys of a run of entries.
pub open spec fn entry_keys(entries: Seq<Entry>) -> Seq<RankKey> {
    entries.map_values(|e: Entry| rank_key()(e@))
}

/// Listings that hold the same entries, in whatever order, hold the same
/// keys to rank.
proof fn lemma_picked_keys_permute(a: Seq<EntryView>, b: Seq<EntryView>)
    requires
        a.to_multiset() == b.to_multiset(),
    ensures
        picked_keys(a).to_multiset() == picked_keys(b).to_multiset(),
    decreases a.len(),
{
    broadcast use group_to_multiset_ensures;

    a.to_multiset_ensures();
    b.to_multiset_ensures();
    assert(a.len() == b.len());
    if a.len() == 0 {
        assert(a =~= b);
    } else {
        let x = a.last();
        assert(a.to_multiset().count(x) > 0);
        assert(b.to_multiset().count(x) > 0);
        assert(b.contains(x));
        let at = choose|i: int| 0 <= i < b.len() && b[i] == x;
        let shorter = a.drop_last();
        let front = b.subrange(0, at);
        let back = b.subrange(at + 1, b.len() as int);
        assert(shorter =~= a.remove(a.len() - 1));
        assert(b.remove(at) =~= front + back);
        to_multiset_remove(a, a.len() - 1);
        to_multiset_remove(b, at);
        assert(shorter.to_multiset() =~= (front + back).to_multiset());
        lemma_picked_keys_permute(shorter, front + back);
        assert(a =~= shorter.push(x));
        shorter.lemma_filter_push(x, pick_renamable());
        assert(b =~= front.push(x) + back);
        front.lemma_filter_push(x, pick_renamable());
        Seq::filter_distributes_over_add(front.push(x), back, pick_renamable());
        Seq::filter_distributes_over_add(front, back, pick_renamable());
        let u = picked_keys(front);
        let v = picked_keys(back);
        assert(picked_keys(front + back) =~= u + v);
        lemma_multiset_commutative(u, v);
        if renamable(x) {
            let k = rank_key()(x);
            assert(picked_keys(a) =~= picked_keys(shorter).push(k));
            assert(picked_keys(b) =~= u.push(k) + v);
            lemma_multiset_commutative(u.push(k), v);
            assert(picked_keys(b).to_multiset() =~= picked_keys(a).to_multiset());
        } else {
            assert(picked_keys(a) =~= picked_keys(shorter));
            assert(picked_keys(b) =~= u + v);
        }
    }
}

/// The ranking of a listing ranks the keys that the listing holds, each as
/// often as it holds it.
proof fn lemma_ranked_is_sorted(listing: Seq<EntryView>)
    ensures
        sorted_by(ranked(listing), key_order()),
        ranked(listing).to_multiset() == picked_keys(listing).to_multiset(),
        ranked(listing).len() == picked_keys(listing).len(),
        forall|k: int|
            0 <= k < ranked(listing).len() ==> picked_keys(listing).contains(
                #[trigger] ranked(listing)[k],
            ),
{
    broadcast use group_to_multiset_ensures;

    lemma_key_order_total();
    picked_keys(listing).lemma_sort_by_ensures(key_order());
    ranked(listing).to_multiset_ensures();
    picked_keys(listing).to_multiset_ensures();
    assert forall|k: int| 0 <= k < ranked(listing).len() implies picked_keys(listing).contains(
        #[trigger] ranked(listing)[k],
    ) by {
        assert(ranked(listing).contains(ranked(listing)[k]));
    }
}

/// Builds the numbered file name.
fn build_numbered_name(index: usize, name: &str) -> (built: String)
    ensures
        built@ == numbered_name(index as nat, name@),
{
    let mut built = decimal_string(index);
    match file_extension(name) {
        Some(ext) => {
            built.append(".");
            built.append(ext);
            proof {
                reveal_strlit(".");
                assert("."@ =~= seq!['.']);
                assert(built@ =~= numbered_name(index as nat, name@));
            }
        },
        None => {
            assert(built@ =~= numbered_name(index as nat, name@));
        },
    }
    built
}

/// The entries of the listing that can be renamed, ranked.
fn rank_renamable(listing: &Vec<Entry>) -> (sorted: Vec<Entry>)
    ensures
        entry_keys(sorted@) == ranked(entry_views(listing@)),
        forall|i: int| 0 <= i < sorted.len() ==> renamable(#[trigger] sorted[i]@),
{
    let ghost all = entry_views(listing@);
    let mut sorted: Vec<Entry> = Vec::new();
    let mut at: usize = 0;
    proof {
        assert(all.subrange(0, 0) =~= Seq::<EntryView>::empty());
        assert(entry_keys(sorted@) =~= picked_keys(all.subrange(0, 0)));
    }
    while at < listing.len()
        invariant
            at <= listing.len(),
            all == entry_views(listing@),
            forall|i: int| 0 <= i < sorted.len() ==> renamable(#[trigger] sorted[i]@),
            sorted_by(entry_keys(sorted@), key_order()),
            entry_keys(sorted@).to_multiset() == picked_keys(
                all.subrange(0, at as int),
            ).to_multiset(),
        decreases listing.len() - at,
    {
        let entry = &listing[at];
        proof {
            let seen = all.subrange(0, at as int);
            assert(all.subrange(0, at + 1) =~= seen.push(all[at as int]));
            seen.lemma_filter_push(all[at as int], pick_renamable());
        }
        if is_renamable(entry) {
            let ghost key = rank_key()(entry@);
            let ghost before = entry_keys(sorted@);
            let mut pos: usize = 0;
            while pos < sorted.len() && key_before(
                &sorted[pos].name,
                &sorted[pos].path,
                &entry.name,
                &entry.path,
            )
                invariant
                    pos <= sorted.len(),
                    before == entry_keys(sorted@),
                    key == rank_key()(entry@),
                    forall|i: int| 0 <= i < pos ==> key_leq(#[trigger] before[i], key),
                decreases sorted.len() - pos,
            {
                pos = pos + 1;
            }
            proof {
                lemma_key_order_total();
                let r = key_order();
                let after = before.insert(pos as int, key);
                assert forall|i: int, j: int| 0 <= i < j < after.len() implies #[trigger] r(
                    after[i],
                    after[j],
                ) by {
                    if j < pos {
                        assert(r(before[i], before[j]));
                    } else if j == pos {
                        assert(key_leq(before[i], key));
                    } else if i < pos {
                        assert(r(before[i], before[j - 1]));
                    } else if i == pos {
                        assert(r(key, before[pos as int]) || r(before[pos as int], key));
                        if j - 1 > pos {
                            assert(r(before[pos as int], before[j - 1]));
                        }
                        assert(r(key, before[j - 1]));
                    } else {
                        assert(r(before[i - 1], before[j - 1]));
                    }
                }
                to_multiset_insert(before, pos as int, key);
                let seen = all.subrange(0, at as int);
                assert(picked_keys(all.subrange(0, at + 1)) =~= picked_keys(seen).push(key));
                to_multiset_build(picked_keys(seen), key);
            }
            sorted.insert(pos, entry.clone());
            assert(entry_keys(sorted@) =~= before.insert(pos as int, key));
        }
        at = at + 1;
    }
    proof {
        assert(all.subrange(0, at as int) =~= all);
        lemma_key_order_total();
        lemma_ranked_is_sorted(all);
        lemma_sorted_unique(entry_keys(sorted@), ranked(all), key_order());
    }
    sorted
}

/// Plans the numbering of the files listed for the directory `root`: every
/// renamable entry moves to `root`, `separator`, its rank by name among
/// the renamable entries, and its old extension. The order of the listing
/// has no part in it. The plan is refused as a whole when one of the new
/// names is the present name of another entry of the listing.
pub fn plan_numbering(root: &str, separator: &str, listing: &Vec<Entry>) -> (verdict: Result<
    Vec<Rename>,
    FailureCause,
>)
    ensures
        match verdict {
            Ok(plan) => !numbering_blocked(entry_views(listing@)) && rename_views(plan@)
                == numbering_plan(root@, separator@, entry_views(listing@)),
            Err(cause) => cause == FailureCause::Collision && numbering_blocked(
                entry_views(listing@),
            ),
        },
{
    let ghost all = entry_views(listing@);
    let ghost chosen = ranked(all);
    let sorted = rank_renamable(listing);
    let mut plan: Vec<Rename> = Vec::new();
    let mut names: Vec<String> = Vec::new();
    let mut k: usize = 0;
    while k < sorted.len()
        invariant
            k <= sorted.len(),
            chosen == entry_keys(sorted@),
            plan.len() == k,
            names.len() == k,
            forall|i: int|
                0 <= i < k ==> (#[trigger] names[i])@ == numbered_name(i as nat, chosen[i].0),
            forall|i: int|
                0 <= i < k ==> (#[trigger] plan[i])@ == (RenameView {
                    from: chosen[i].1,
                    to: numbered_path(root@, separator@, i as nat, chosen[i].0),
                }),
        decreases sorted.len() - k,
    {
        let name = build_numbered_name(k, sorted[k].name.as_str());
        let mut to = String::new();
        to.append(root);
        to.append(separator);
        to.append(name.as_str());
        assert(to@ =~= numbered_path(root@, separator@, k as nat, chosen[k as int].0));
        names.push(name);
        plan.push(Rename { from: sorted[k].path.clone(), to });
        k = k + 1;
    }
    let mut k: usize = 0;
    while k < names.len()
        invariant
            k <= names.len(),
            all == entry_views(listing@),
            chosen == ranked(all),
            chosen == entry_keys(sorted@),
            names.len() == sorted.len(),
            forall|i: int|
                0 <= i < names.len() ==> (#[trigger] names[i])@ == numbered_name(
                    i as nat,
                    chosen[i].0,
                ),
            forall|i: int, j: int|
                0 <= i < k && 0 <= j < all.len() && is_another(all[j], chosen[i])
                    ==> #[trigger] numbered_name(i as nat, chosen[i].0) != (#[trigger] all[j]).name,
        decreases names.len() - k,
    {
        let mut j: usize = 0;
        while j < listing.len()
            invariant
                j <= listing.len(),
                k < names.len(),
                all == entry_views(listing@),
                chosen == ranked(all),
                chosen == entry_keys(sorted@),
                names.len() == sorted.len(),
                names[k as int]@ == numbered_name(k as nat, chosen[k as int].0),
                forall|m: int|
                    0 <= m < j && is_another(#[trigger] all[m], chosen[k as int]) ==> numbered_name(
                        k as nat,
                        chosen[k as int].0,
                    ) != all[m].name,
            decreases listing.len() - j,
        {
            let other = &listing[j];
            if names[k] == other.name {
                let same = is_renamable(other) && other.name == sorted[k].name && other.path
                    == sorted[k].path;
                if !same {
                    assert(chosen.len() == sorted.len());
                    assert(all.len() == listing.len());
                    let ghost ki = k as int;
                    let ghost ji = j as int;
                    assert(0 <= ki < ranked(all).len() && 0 <= ji < all.len() && is_another(
                        all[ji],
                        ranked(all)[ki],
                    ) && numbered_name(ki as nat, ranked(all)[ki].0) == all[ji].name);
                    return Err(FailureCause::Collision);
                }
                assert(rank_key()(all[j as int]) =~= chosen[k as int]);
            }
            j = j + 1;
        }
        k = k + 1;
    }
    assert(rename_views(plan@) =~= numbering_plan(root@, separator@, all));
    Ok(plan)
}

/// The move takes a renamable entry of the listing from where it is.
pub open spec fn moves_renamable(listing: Seq<EntryView>, step: RenameView) -> bool {
    exists|j: int|
        0 <= j < listing.len() && renamable(#[trigger] listing[j]) && listing[j].path == step.from
}

/// No two moves of a numbering plan share a destination, and no hidden
/// entry is among the files that move.
pub proof fn lemma_numbering_plan_sound(
    root: Seq<char>,
    separator: Seq<char>,
    listing: Seq<EntryView>,
)
    ensures
        forall|i: int, j: int|
            #![trigger numbering_plan(root, separator, listing)[i], numbering_plan(root, separator, listing)[j]]
            0 <= i < j < numbering_plan(root, separator, listing).len() ==> numbering_plan(
                root,
                separator,
                listing,
            )[i].to != numbering_plan(root, separator, listing)[j].to,
        forall|i: int|
            0 <= i < numbering_plan(root, separator, listing).len() ==> moves_renamable(
                listing,
                #[trigger] numbering_plan(root, separator, listing)[i],
            ),
{
    let plan = numbering_plan(root, separator, listing);
    let chosen = ranked(listing);
    let picked = listing.filter(pick_renamable());
    assert forall|i: int, j: int| 0 <= i < j < plan.len() implies plan[i].to != plan[j].to by {
        if plan[i].to == plan[j].to {
            let head = root + separator;
            let a = numbered_name(i as nat, chosen[i].0);
            let b = numbered_name(j as nat, chosen[j].0);
            assert(plan[i].to == head + a);
            assert(plan[j].to == head + b);
            assert(a =~= (head + a).subrange(head.len() as int, (head + a).len() as int));
            assert(b =~= (head + b).subrange(head.len() as int, (head + b).len() as int));
            crate::text::lemma_suffix_shape(chosen[i].0);
            crate::text::lemma_suffix_shape(chosen[j].0);
            crate::text::lemma_numeral_prefix_unique(
                i as nat,
                suffix(chosen[i].0),
                j as nat,
                suffix(chosen[j].0),
            );
        }
    }
    lemma_ranked_is_sorted(listing);
    assert forall|i: int| 0 <= i < plan.len() implies moves_renamable(
        listing,
        #[trigger] plan[i],
    ) by {
        assert(picked_keys(listing).contains(chosen[i]));
        let m = choose|m: int| 0 <= m < picked.len() && picked_keys(listing)[m] == chosen[i];
        listing.lemma_filter_pred(pick_renamable(), m);
        assert(picked.contains(picked[m]));
        listing.lemma_filter_contains_rev(pick_renamable(), picked[m]);
        let j = choose|j: int| 0 <= j < listing.len() && listing[j] == picked[m];
        assert(renamable(listing[j]));
    }
}

/// The plan does not depend on the order of the listing: two listings that
/// hold the same entries, each as often as the other, are numbered alike
/// and blocked alike.
pub proof fn lemma_numbering_ignores_listing_order(
    root: Seq<char>,
    separator: Seq<char>,
    a: Seq<EntryView>,
    b: Seq<EntryView>,
)
    requires
        a.to_multiset() == b.to_multiset(),
    ensures
        ranked(a) == ranked(b),
        numbering_plan(root, separator, a) == numbering_plan(root, separator, b),
        numbering_blocked(a) == numbering_blocked(b),
{
    lemma_key_order_total();
    lemma_picked_keys_permute(a, b);
    lemma_ranked_is_sorted(a);
    lemma_ranked_is_sorted(b);
    lemma_sorted_unique(ranked(a), ranked(b), key_order());
    assert(numbering_plan(root, separator, a) =~= numbering_plan(root, separator, b));
    if numbering_blocked(a) {
        lemma_blocked_carries_over(a, b);
    }
    if numbering_blocked(b) {
        lemma_blocked_carries_over(b, a);
    }
}

proof fn lemma_blocked_carries_over(a: Seq<EntryView>, b: Seq<EntryView>)
    requires
        a.to_multiset() == b.to_multiset(),
        ranked(a) == ranked(b),
        numbering_blocked(a),
    ensures
        numbering_blocked(b),
{
    broadcast use group_to_multiset_ensures;

    a.to_multiset_ensures();
    b.to_multiset_ensures();
    let chosen = ranked(a);
    let (k, j) = choose|k: int, j: int|
        0 <= k < chosen.len() && 0 <= j < a.len() && is_another(a[j], chosen[k])
            && #[trigger] numbered_name(k as nat, chosen[k].0) == (#[trigger] a[j]).name;
    assert(a.to_multiset().count(a[j]) > 0);
    assert(b.contains(a[j]));
    let m = choose|m: int| 0 <= m < b.len() && b[m] == a[j];
    assert(numbered_name(k as nat, chosen[k].0) == b[m].name);
}

} // verus!
