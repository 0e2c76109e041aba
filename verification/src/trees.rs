//! What the walks of the cache come to, on a whole directory tree.

use vstd::prelude::*;

use crate::cache::has_expired;
use crate::listing::{
    entry_at, entry_views, law_ordering_keeps_every_entry, lemma_views_of_same_entries,
    listed_entry, same_by_key, BodyView, CacheEntry, EntryView,
};
use crate::paths::PathStyle;
use crate::walk::{
    mark_used, sweep_next, walk_lists, walk_on, walk_removes, DescribedView, FoundView, FrameView,
    SweepAction,
};

verus! {

/// A directory: its body, if it is an entry, whether it holds any file, and the
/// directories in it.
pub struct Dir {
    pub entry: Option<BodyView>,
    pub has_file: bool,
    pub subdirs: Seq<Dir>,
}

/// The number of directories in a tree, its root included.
pub open spec fn size(dir: Dir) -> nat
    decreases dir,
{
    1 + size_all(dir.subdirs)
}

/// The number of directories in some trees.
pub open spec fn size_all(dirs: Seq<Dir>) -> nat
    decreases dirs,
{
    if dirs.len() == 0 {
        0
    } else {
        size(dirs[0]) + size_all(dirs.drop_first())
    }
}

/// The directories in some trees are the first root, those below it, and those in the
/// other trees.
proof fn lemma_size_all(dirs: Seq<Dir>)
    requires
        dirs.len() > 0,
    ensures
        size_all(dirs) == 1 + size_all(dirs[0].subdirs) + size_all(dirs.drop_first()),
{
    reveal_with_fuel(size, 2);
    reveal_with_fuel(size_all, 2);
}

/// Trees one after the other have as many directories as together.
proof fn lemma_size_all_add(a: Seq<Dir>, b: Seq<Dir>)
    ensures
        size_all(a + b) == size_all(a) + size_all(b),
    decreases a.len(),
{
    if a.len() == 0 {
        assert(a + b =~= b);
    } else {
        assert((a + b).drop_first() =~= a.drop_first() + b);
        lemma_size_all_add(a.drop_first(), b);
    }
}

// ---------------------------------------------------------------------------
// Entries
// ---------------------------------------------------------------------------

/// The entries in a tree, in order; there is none below an entry.
pub open spec fn entries(dir: Dir) -> Seq<BodyView>
    decreases dir,
{
    match dir.entry {
        Some(body) => seq![body],
        None => entries_all(dir.subdirs),
    }
}

/// The entries in some trees, in order.
pub open spec fn entries_all(dirs: Seq<Dir>) -> Seq<BodyView>
    decreases dirs,
{
    if dirs.len() == 0 {
        seq![]
    } else {
        entries(dirs[0]) + entries_all(dirs.drop_first())
    }
}

/// What a pruning walk finds in a directory.
pub open spec fn found_in(dir: Dir) -> FoundView<Dir> {
    match dir.entry {
        Some(body) => FoundView::Entry { age: body.age },
        None => FoundView::Directory { subdirs: dir.subdirs },
    }
}

/// What a listing walk finds in a directory.
pub open spec fn described_in(dir: Dir) -> DescribedView<Dir> {
    match dir.entry {
        Some(body) => DescribedView::Entry { body },
        None => DescribedView::Directory { subdirs: dir.subdirs },
    }
}

/// A walk has less to look at with every directory it looks at.
proof fn lemma_walk_shrinks(pending: Seq<Dir>)
    requires
        pending.len() > 0,
    ensures
        size_all(walk_on(pending.drop_first(), found_in(pending[0]).below())) < size_all(pending),
        described_in(pending[0]).below() == found_in(pending[0]).below(),
{
    lemma_size_all(pending);
    lemma_size_all_add(pending[0].subdirs, pending.drop_first());
}

/// Entries of trees one after the other.
proof fn lemma_entries_all_add(a: Seq<Dir>, b: Seq<Dir>)
    ensures
        entries_all(a + b) == entries_all(a) + entries_all(b),
    decreases a.len(),
{
    if a.len() == 0 {
        assert(a + b =~= b);
        assert(entries_all(a) + entries_all(b) =~= entries_all(b));
    } else {
        assert((a + b).drop_first() =~= a.drop_first() + b);
        lemma_entries_all_add(a.drop_first(), b);
        assert(entries_all(a + b) =~= entries_all(a) + entries_all(b));
    }
}

/// A step of a walk leaves the entries to be met as they are, but for the one it meets.
proof fn lemma_entries_of_step(pending: Seq<Dir>)
    requires
        pending.len() > 0,
    ensures
        entries_all(pending) == (match pending[0].entry {
            Some(body) => seq![body],
            None => seq![],
        }) + entries_all(walk_on(pending.drop_first(), found_in(pending[0]).below())),
{
    let first = pending[0];
    let rest = pending.drop_first();
    reveal_with_fuel(entries, 2);
    reveal_with_fuel(entries_all, 2);
    if first.entry is None {
        lemma_entries_all_add(first.subdirs, rest);
        assert(Seq::<BodyView>::empty() + entries_all(first.subdirs + rest) =~= entries_all(
            first.subdirs + rest,
        ));
    }
}

/// The entries that a walk meets, which has these directories still to look at.
pub open spec fn met(pending: Seq<Dir>) -> Seq<BodyView>
    decreases size_all(pending),
    via met_shrinks
{
    if pending.len() == 0 {
        seq![]
    } else {
        let later = met(walk_on(pending.drop_first(), found_in(pending[0]).below()));
        match pending[0].entry {
            Some(body) => seq![body] + later,
            None => later,
        }
    }
}

#[via_fn]
proof fn met_shrinks(pending: Seq<Dir>) {
    if pending.len() > 0 {
        lemma_walk_shrinks(pending);
    }
}

/// A walk meets every entry, each once, in order.
pub proof fn law_walk_meets_every_entry(pending: Seq<Dir>)
    ensures
        met(pending) == entries_all(pending),
    decreases size_all(pending),
{
    if pending.len() > 0 {
        lemma_walk_shrinks(pending);
        lemma_entries_of_step(pending);
        let next = walk_on(pending.drop_first(), found_in(pending[0]).below());
        law_walk_meets_every_entry(next);
        assert(Seq::<BodyView>::empty() + entries_all(next) =~= entries_all(next));
    }
}

/// The property of having outlived `ttl`.
pub open spec fn is_expired(ttl: u64) -> spec_fn(BodyView) -> bool {
    |body: BodyView| has_expired(body.age, ttl)
}

/// The property of not having outlived `ttl`.
pub open spec fn is_fresh(ttl: u64) -> spec_fn(BodyView) -> bool {
    |body: BodyView| !has_expired(body.age, ttl)
}

/// The directories that a pruning walk removes, which has these still to look at.
pub open spec fn removed(pending: Seq<Dir>, ttl: u64) -> Seq<Dir>
    decreases size_all(pending),
    via removed_shrinks
{
    if pending.len() == 0 {
        seq![]
    } else {
        let found = found_in(pending[0]);
        let later = removed(walk_on(pending.drop_first(), found.below()), ttl);
        if walk_removes(found, ttl) {
            seq![pending[0]] + later
        } else {
            later
        }
    }
}

#[via_fn]
proof fn removed_shrinks(pending: Seq<Dir>, ttl: u64) {
    if pending.len() > 0 {
        lemma_walk_shrinks(pending);
    }
}

/// The bodies of entries.
pub open spec fn bodies(dirs: Seq<Dir>) -> Seq<BodyView> {
    dirs.map_values(|dir: Dir| dir.entry->0)
}

/// A pruning walk removes exactly the entries that have outlived `ttl`, in order.
pub proof fn law_walk_removes_the_expired(pending: Seq<Dir>, ttl: u64)
    ensures
        bodies(removed(pending, ttl)) == entries_all(pending).filter(is_expired(ttl)),
        forall|i: int|
            0 <= i < removed(pending, ttl).len() ==> (#[trigger] removed(pending, ttl)[i]).entry
                is Some,
    decreases size_all(pending),
{
    let p = is_expired(ttl);
    if pending.len() == 0 {
        reveal(Seq::filter);
        assert(bodies(removed(pending, ttl)) =~= seq![]);
    } else {
        let first = pending[0];
        let found = found_in(first);
        let next = walk_on(pending.drop_first(), found.below());
        let later = removed(next, ttl);
        lemma_walk_shrinks(pending);
        lemma_entries_of_step(pending);
        law_walk_removes_the_expired(next, ttl);
        match first.entry {
            Some(body) => {
                Seq::filter_distributes_over_add(seq![body], entries_all(next), p);
                lemma_filter_single(body, p);
                if has_expired(body.age, ttl) {
                    assert(bodies(seq![first] + later) =~= seq![body] + bodies(later));
                } else {
                    assert(Seq::<BodyView>::empty() + bodies(later) =~= bodies(later));
                }
            },
            None => {
                assert(Seq::<BodyView>::empty() + entries_all(next) =~= entries_all(next));
            },
        }
    }
}

/// What is left of some trees after every entry in them that has outlived `ttl` was removed.
pub open spec fn pruned(dirs: Seq<Dir>, ttl: u64) -> Seq<Dir>
    decreases dirs,
{
    if dirs.len() == 0 {
        seq![]
    } else {
        let first = dirs[0];
        let rest = pruned(dirs.drop_first(), ttl);
        match first.entry {
            Some(body) => if has_expired(body.age, ttl) {
                rest
            } else {
                seq![first] + rest
            },
            None => seq![
                Dir {
                    entry: None,
                    has_file: first.has_file,
                    subdirs: pruned(first.subdirs, ttl),
                },
            ] + rest,
        }
    }
}

/// What a pruning walk removes from trees one after the other.
proof fn lemma_removed_add(a: Seq<Dir>, b: Seq<Dir>, ttl: u64)
    ensures
        removed(a + b, ttl) == removed(a, ttl) + removed(b, ttl),
    decreases size_all(a),
{
    if a.len() == 0 {
        assert(a + b =~= b);
        assert(removed(a, ttl) + removed(b, ttl) =~= removed(b, ttl));
    } else {
        let first = a[0];
        let below = found_in(first).below();
        let next = walk_on(a.drop_first(), below);
        lemma_walk_shrinks(a);
        lemma_removed_add(next, b, ttl);
        assert((a + b).drop_first() =~= a.drop_first() + b);
        assert(walk_on((a + b).drop_first(), below) =~= next + b);
        assert(removed(a + b, ttl) =~= removed(a, ttl) + removed(b, ttl));
    }
}

/// What is left after pruning is what the pruning walk does not remove: every directory
/// is either left, or one that the walk removes or below one.
pub proof fn law_pruning_takes_away_what_the_walk_removes(dirs: Seq<Dir>, ttl: u64)
    ensures
        size_all(pruned(dirs, ttl)) + size_all(removed(dirs, ttl)) == size_all(dirs),
    decreases dirs,
{
    if dirs.len() > 0 {
        let first = dirs[0];
        let rest = dirs.drop_first();
        law_pruning_takes_away_what_the_walk_removes(rest, ttl);
        lemma_size_all(dirs);
        match first.entry {
            Some(body) => {
                if has_expired(body.age, ttl) {
                    let gone = seq![first] + removed(rest, ttl);
                    assert(gone.drop_first() =~= removed(rest, ttl));
                    lemma_size_all(gone);
                } else {
                    let left = seq![first] + pruned(rest, ttl);
                    assert(left.drop_first() =~= pruned(rest, ttl));
                    lemma_size_all(left);
                }
            },
            None => {
                law_pruning_takes_away_what_the_walk_removes(first.subdirs, ttl);
                lemma_removed_add(first.subdirs, rest, ttl);
                lemma_size_all_add(removed(first.subdirs, ttl), removed(rest, ttl));
                let kept = Dir {
                    entry: None,
                    has_file: first.has_file,
                    subdirs: pruned(first.subdirs, ttl),
                };
                let left = seq![kept] + pruned(rest, ttl);
                assert(pruned(dirs, ttl) == left);
                assert(left.drop_first() =~= pruned(rest, ttl));
                lemma_size_all(left);
            },
        }
    }
}

/// After pruning, the entries that are left are those that have not outlived `ttl`.
pub proof fn law_pruning_leaves_the_fresh_entries(dirs: Seq<Dir>, ttl: u64)
    ensures
        entries_all(pruned(dirs, ttl)) == entries_all(dirs).filter(is_fresh(ttl)),
    decreases dirs,
{
    let p = is_fresh(ttl);
    reveal(Seq::filter);
    if dirs.len() > 0 {
        let first = dirs[0];
        let rest = dirs.drop_first();
        law_pruning_leaves_the_fresh_entries(rest, ttl);
        Seq::filter_distributes_over_add(entries(first), entries_all(rest), p);
        match first.entry {
            Some(body) => {
                lemma_filter_single(body, p);
                if has_expired(body.age, ttl) {
                    assert(Seq::<BodyView>::empty() + entries_all(rest).filter(p) =~= entries_all(
                        rest,
                    ).filter(p));
                } else {
                    lemma_entries_all_cons(first, pruned(rest, ttl));
                }
            },
            None => {
                law_pruning_leaves_the_fresh_entries(first.subdirs, ttl);
                let kept = Dir {
                    entry: None,
                    has_file: first.has_file,
                    subdirs: pruned(first.subdirs, ttl),
                };
                lemma_entries_all_cons(kept, pruned(rest, ttl));
            },
        }
    }
}

/// The entries of a tree and of those after it.
proof fn lemma_entries_all_cons(first: Dir, rest: Seq<Dir>)
    ensures
        entries_all(seq![first] + rest) == entries(first) + entries_all(rest),
{
    assert((seq![first] + rest).drop_first() =~= rest);
}

/// A list of one is kept or dropped as a whole.
proof fn lemma_filter_single(body: BodyView, p: spec_fn(BodyView) -> bool)
    ensures
        seq![body].filter(p) == (if p(body) {
            seq![body]
        } else {
            seq![]
        }),
{
    reveal_with_fuel(Seq::filter, 2);
    assert(seq![body].drop_last() =~= seq![]);
    assert(Seq::<BodyView>::empty().push(body) =~= seq![body]);
}

// ---------------------------------------------------------------------------
// Empty directories
// ---------------------------------------------------------------------------

/// Whether there is no file in a tree, at any depth.
pub open spec fn hollow(dir: Dir) -> bool
    decreases dir,
{
    !dir.has_file && hollow_all(dir.subdirs)
}

/// Whether there is no file in any of some trees.
pub open spec fn hollow_all(dirs: Seq<Dir>) -> bool
    decreases dirs,
{
    dirs.len() == 0 || (hollow(dirs[0]) && hollow_all(dirs.drop_first()))
}

/// The directories below the root of a tree that hold no file at any depth, each after
/// those in it.
pub open spec fn hollow_below(dir: Dir) -> Seq<Dir>
    decreases dir,
{
    hollow_in(dir.subdirs)
}

/// The directories in some trees that hold no file at any depth, each after those in it.
pub open spec fn hollow_in(dirs: Seq<Dir>) -> Seq<Dir>
    decreases dirs,
{
    if dirs.len() == 0 {
        seq![]
    } else {
        let first = dirs[0];
        let own = if hollow(first) {
            hollow_below(first).push(first)
        } else {
            hollow_below(first)
        };
        own + hollow_in(dirs.drop_first())
    }
}

/// The state of a sweep that has entered a directory.
pub open spec fn frame_of(dir: Dir) -> FrameView<Dir> {
    FrameView { path: dir, pending: dir.subdirs, empty: !dir.has_file }
}

/// The steps that a sweep can still take, at most.
pub open spec fn steps_left(frames: Seq<FrameView<Dir>>) -> nat
    decreases frames.len(),
{
    if frames.len() == 0 {
        0
    } else {
        2 * size_all(frames.last().pending) + 1 + steps_left(frames.drop_last())
    }
}

/// A step leaves fewer steps, even if it enters a directory.
proof fn lemma_steps_shrink(frames: Seq<FrameView<Dir>>)
    requires
        frames.len() > 0,
    ensures
        ({
            let (after, action) = sweep_next(frames);
            &&& steps_left(after) < steps_left(frames)
            &&& action matches SweepAction::Visit(dir) ==> steps_left(after.push(frame_of(dir)))
                < steps_left(frames)
        }),
    decreases frames.len(),
{
    let top = frames.last();
    let rest = frames.drop_last();
    if top.pending.len() > 0 {
        let now = FrameView {
            path: top.path,
            pending: top.pending.drop_first(),
            empty: top.empty,
        };
        let after = rest.push(now);
        assert(after.drop_last() =~= rest);
        let dir = top.pending[0];
        let inner = after.push(frame_of(dir));
        assert(inner.drop_last() =~= after);
        lemma_size_all(top.pending);
        assert(steps_left(after) == 2 * size_all(now.pending) + 1 + steps_left(rest));
        assert(steps_left(inner) == 2 * size_all(dir.subdirs) + 1 + steps_left(after));
    } else if rest.len() > 0 && !top.empty {
        assert(mark_used(rest).drop_last() =~= rest.drop_last());
        assert(steps_left(mark_used(rest)) == steps_left(rest));
        lemma_steps_shrink(mark_used(rest));
    }
}

/// What a sweep removes, in order, and what it says in the end of the directory that
/// it started at, if each directory holds what the tree says.
pub open spec fn sweep(frames: Seq<FrameView<Dir>>) -> (Seq<Dir>, bool)
    decreases steps_left(frames),
    via sweep_shrinks
{
    if frames.len() == 0 {
        (seq![], false)
    } else {
        let (after, action) = sweep_next(frames);
        match action {
            SweepAction::Visit(dir) => sweep(after.push(frame_of(dir))),
            SweepAction::Remove(dir) => (seq![dir] + sweep(after).0, sweep(after).1),
            SweepAction::Done(empty) => (seq![], empty),
        }
    }
}

#[via_fn]
proof fn sweep_shrinks(frames: Seq<FrameView<Dir>>) {
    if frames.len() > 0 {
        lemma_steps_shrink(frames);
    }
}

/// What a sweep comes to from a given state on, directory by directory.
spec fn outcome(frames: Seq<FrameView<Dir>>) -> (Seq<Dir>, bool)
    decreases frames.len(),
{
    if frames.len() == 0 {
        (seq![], false)
    } else {
        let top = frames.last();
        let rest = frames.drop_last();
        let removed = hollow_in(top.pending);
        let empty = top.empty && hollow_all(top.pending);
        if rest.len() == 0 {
            (removed, empty)
        } else if empty {
            (removed.push(top.path) + outcome(rest).0, outcome(rest).1)
        } else {
            (removed + outcome(mark_used(rest)).0, outcome(mark_used(rest)).1)
        }
    }
}

/// One step of a sweep, seen from its outcome.
proof fn lemma_outcome_step(frames: Seq<FrameView<Dir>>)
    requires
        frames.len() > 0,
    ensures
        ({
            let (after, action) = sweep_next(frames);
            match action {
                SweepAction::Visit(dir) => outcome(frames) == outcome(after.push(frame_of(dir))),
                SweepAction::Remove(dir) => after.len() > 0 && outcome(frames) == (
                    seq![dir] + outcome(after).0,
                    outcome(after).1,
                ),
                SweepAction::Done(empty) => outcome(frames) == (Seq::<Dir>::empty(), empty),
            }
        }),
    decreases frames.len(),
{
    let top = frames.last();
    let rest = frames.drop_last();
    if top.pending.len() > 0 {
        let dir = top.pending[0];
        let now = FrameView {
            path: top.path,
            pending: top.pending.drop_first(),
            empty: top.empty,
        };
        let after = rest.push(now);
        let inner = after.push(frame_of(dir));
        assert(after.drop_last() =~= rest);
        assert(inner.drop_last() =~= after);
        assert(inner.last() == frame_of(dir));
        let used = mark_used(after);
        assert(used.drop_last() =~= rest);
        let below = hollow_below(dir);
        let later = hollow_in(top.pending.drop_first());
        if hollow(dir) {
            assert(hollow_in(top.pending) == below.push(dir) + later);
            assert(outcome(inner) == (below.push(dir) + outcome(after).0, outcome(after).1));
            assert(outcome(frames).0 =~= below.push(dir) + outcome(after).0);
        } else {
            assert(hollow_in(top.pending) == below + later);
            assert(outcome(inner) == (below + outcome(used).0, outcome(used).1));
            assert(outcome(frames).0 =~= below + outcome(used).0);
        }
    } else if rest.len() > 0 {
        assert(hollow_in(top.pending) =~= seq![]);
        if top.empty {
            assert(outcome(frames).0 =~= seq![top.path] + outcome(rest).0);
        } else {
            assert(outcome(frames).0 =~= outcome(mark_used(rest)).0);
            lemma_outcome_step(mark_used(rest));
        }
    } else {
        assert(hollow_in(top.pending) =~= seq![]);
    }
}

/// A sweep comes to its outcome.
proof fn lemma_sweep_outcome(frames: Seq<FrameView<Dir>>)
    ensures
        sweep(frames) == outcome(frames),
    decreases steps_left(frames),
{
    if frames.len() > 0 {
        lemma_steps_shrink(frames);
        lemma_outcome_step(frames);
        let (after, action) = sweep_next(frames);
        match action {
            SweepAction::Visit(dir) => lemma_sweep_outcome(after.push(frame_of(dir))),
            SweepAction::Remove(dir) => lemma_sweep_outcome(after),
            SweepAction::Done(empty) => {},
        }
    }
}

/// A sweep removes exactly the directories below the one that it started at that hold
/// no file at any depth, each after those in it, and says in the end whether the one
/// that it started at holds none either.
pub proof fn law_sweep_removes_the_hollow(root: Dir)
    ensures
        sweep(seq![frame_of(root)]) == (hollow_below(root), hollow(root)),
{
    let frames = seq![frame_of(root)];
    lemma_sweep_outcome(frames);
    assert(frames.drop_last() =~= seq![]);
}

/// Whether every entry in a tree holds a file, its body.
pub open spec fn entries_hold_files(dir: Dir) -> bool
    decreases dir,
{
    (dir.entry is Some ==> dir.has_file) && all_entries_hold_files(dir.subdirs)
}

/// Whether every entry in some trees holds a file.
pub open spec fn all_entries_hold_files(dirs: Seq<Dir>) -> bool
    decreases dirs,
{
    dirs.len() == 0 || (entries_hold_files(dirs[0]) && all_entries_hold_files(dirs.drop_first()))
}

/// There is no entry where there is no file.
proof fn lemma_hollow_has_no_entries(dir: Dir)
    requires
        entries_hold_files(dir),
        hollow(dir),
    ensures
        entries(dir) == Seq::<BodyView>::empty(),
    decreases dir,
{
    lemma_hollow_all_have_no_entries(dir.subdirs);
}

/// There is no entry where there is no file.
proof fn lemma_hollow_all_have_no_entries(dirs: Seq<Dir>)
    requires
        all_entries_hold_files(dirs),
        hollow_all(dirs),
    ensures
        entries_all(dirs) == Seq::<BodyView>::empty(),
    decreases dirs,
{
    if dirs.len() > 0 {
        lemma_hollow_has_no_entries(dirs[0]);
        lemma_hollow_all_have_no_entries(dirs.drop_first());
        assert(entries_all(dirs) =~= Seq::<BodyView>::empty());
    }
}

/// Directories without a file at any depth hold no entry.
proof fn lemma_hollow_in_has_no_entries(dirs: Seq<Dir>)
    requires
        all_entries_hold_files(dirs),
    ensures
        forall|i: int|
            0 <= i < hollow_in(dirs).len() ==> entries(#[trigger] hollow_in(dirs)[i]) == Seq::<
                BodyView,
            >::empty(),
    decreases dirs,
{
    if dirs.len() > 0 {
        let first = dirs[0];
        let rest = dirs.drop_first();
        reveal_with_fuel(all_entries_hold_files, 2);
        reveal_with_fuel(entries_hold_files, 2);
        lemma_hollow_in_has_no_entries(first.subdirs);
        lemma_hollow_in_has_no_entries(rest);
        let below = hollow_in(first.subdirs);
        assert(hollow_below(first) == below);
        if hollow(first) {
            lemma_hollow_has_no_entries(first);
        }
        let own = if hollow(first) {
            below.push(first)
        } else {
            below
        };
        let all = hollow_in(dirs);
        assert(all == own + hollow_in(rest));
        assert forall|i: int| 0 <= i < all.len() implies entries(#[trigger] all[i]) == Seq::<
            BodyView,
        >::empty() by {
            if i < below.len() {
                assert(all[i] == below[i]);
            } else if i < own.len() {
                assert(all[i] == first);
            } else {
                assert(all[i] == hollow_in(rest)[i - own.len()]);
            }
        }
    }
}

/// A sweep removes no directory that is an entry or has one below it.
pub proof fn law_sweep_keeps_every_entry(root: Dir)
    requires
        entries_hold_files(root),
    ensures
        forall|i: int|
            0 <= i < sweep(seq![frame_of(root)]).0.len() ==> entries(
                #[trigger] sweep(seq![frame_of(root)]).0[i],
            ) == Seq::<BodyView>::empty(),
{
    law_sweep_removes_the_hollow(root);
    lemma_hollow_in_has_no_entries(root.subdirs);
    let gone = sweep(seq![frame_of(root)]).0;
    assert(gone == hollow_in(root.subdirs));
    assert forall|i: int| 0 <= i < gone.len() implies entries(#[trigger] gone[i]) == Seq::<
        BodyView,
    >::empty() by {
        assert(gone[i] == hollow_in(root.subdirs)[i]);
    }
}

// ---------------------------------------------------------------------------
// Pruning and sweeping together
// ---------------------------------------------------------------------------

/// What is left of some trees after every directory in them that holds no file at any
/// depth was removed.
pub open spec fn swept_in(dirs: Seq<Dir>) -> Seq<Dir>
    decreases dirs,
{
    if dirs.len() == 0 {
        seq![]
    } else {
        let first = dirs[0];
        let rest = swept_in(dirs.drop_first());
        if hollow(first) {
            rest
        } else {
            seq![
                Dir {
                    entry: first.entry,
                    has_file: first.has_file,
                    subdirs: swept_in(first.subdirs),
                },
            ] + rest
        }
    }
}

/// What is left of a tree after a sweep that started at its root.
pub open spec fn swept(dir: Dir) -> Dir {
    Dir { entry: dir.entry, has_file: dir.has_file, subdirs: swept_in(dir.subdirs) }
}

/// Whether each directory in some trees holds a file at some depth.
pub open spec fn none_hollow(dirs: Seq<Dir>) -> bool
    decreases dirs,
{
    dirs.len() == 0 || (!hollow(dirs[0]) && none_hollow(dirs[0].subdirs) && none_hollow(
        dirs.drop_first(),
    ))
}

/// Sweeping takes away all directories without a file at any depth, and no other.
proof fn lemma_swept_in(dirs: Seq<Dir>)
    ensures
        none_hollow(swept_in(dirs)),
        hollow_all(swept_in(dirs)) == hollow_all(dirs),
        hollow_all(dirs) ==> swept_in(dirs) == Seq::<Dir>::empty(),
        size_all(swept_in(dirs)) + hollow_in(dirs).len() == size_all(dirs),
    decreases dirs,
{
    if dirs.len() > 0 {
        let first = dirs[0];
        let rest = dirs.drop_first();
        lemma_swept_in(first.subdirs);
        lemma_swept_in(rest);
        lemma_size_all(dirs);
        reveal_with_fuel(hollow, 2);
        reveal_with_fuel(hollow_all, 2);
        assert(hollow_below(first) == hollow_in(first.subdirs));
        if !hollow(first) {
            let kept = swept(first);
            let all = seq![kept] + swept_in(rest);
            assert(swept_in(dirs) == all);
            assert(all.drop_first() =~= swept_in(rest));
            assert(all[0] == kept);
            lemma_size_all(all);
            assert(!hollow(kept));
        } else {
            assert(size_all(first.subdirs) == hollow_in(first.subdirs).len());
        }
    }
}

/// A sweep takes away as many directories as it removes, and every directory below the
/// root that it leaves holds a file at some depth.
pub proof fn law_sweep_leaves_files_everywhere(root: Dir)
    ensures
        none_hollow(swept(root).subdirs),
        size(swept(root)) + sweep(seq![frame_of(root)]).0.len() == size(root),
{
    law_sweep_removes_the_hollow(root);
    lemma_swept_in(root.subdirs);
    reveal_with_fuel(size, 2);
    assert(hollow_below(root) == hollow_in(root.subdirs));
}

/// Sweeping leaves the entries as they are.
proof fn lemma_swept_keeps_entries(dirs: Seq<Dir>)
    requires
        all_entries_hold_files(dirs),
    ensures
        entries_all(swept_in(dirs)) == entries_all(dirs),
    decreases dirs,
{
    if dirs.len() > 0 {
        let first = dirs[0];
        let rest = dirs.drop_first();
        reveal_with_fuel(all_entries_hold_files, 2);
        reveal_with_fuel(entries_hold_files, 2);
        lemma_swept_keeps_entries(rest);
        if hollow(first) {
            lemma_hollow_has_no_entries(first);
            assert(Seq::<BodyView>::empty() + entries_all(rest) =~= entries_all(rest));
        } else {
            lemma_swept_keeps_entries(first.subdirs);
            lemma_entries_all_cons(swept(first), swept_in(rest));
            assert(swept_in(dirs) == seq![swept(first)] + swept_in(rest));
            assert(entries(swept(first)) == entries(first)) by {
                reveal_with_fuel(entries, 2);
            }
            assert(entries_all(dirs) == entries(first) + entries_all(rest));
        }
    }
}

/// Pruning leaves no entry without its file.
proof fn lemma_pruned_holds_files(dirs: Seq<Dir>, ttl: u64)
    requires
        all_entries_hold_files(dirs),
    ensures
        all_entries_hold_files(pruned(dirs, ttl)),
    decreases dirs,
{
    if dirs.len() > 0 {
        let first = dirs[0];
        let rest = dirs.drop_first();
        reveal_with_fuel(all_entries_hold_files, 2);
        reveal_with_fuel(entries_hold_files, 2);
        lemma_pruned_holds_files(rest, ttl);
        lemma_pruned_holds_files(first.subdirs, ttl);
        let kept = match first.entry {
            Some(body) => first,
            None => Dir {
                entry: None,
                has_file: first.has_file,
                subdirs: pruned(first.subdirs, ttl),
            },
        };
        let all = seq![kept] + pruned(rest, ttl);
        assert(all.drop_first() =~= pruned(rest, ttl));
        assert(all[0] == kept);
        assert(entries_hold_files(kept));
    }
}

/// What is left of the cache, of which this is the directory, after it was pruned and
/// swept; nothing, if it was an entry itself and was removed.
pub open spec fn cleaned(root: Dir, ttl: u64) -> Seq<Dir> {
    pruned(seq![root], ttl).map_values(|dir: Dir| swept(dir))
}

/// After pruning and sweeping, every directory left below the cache directory holds a
/// file at some depth, and the entries left are exactly those that have not outlived
/// `ttl`.
pub proof fn law_cleaning_leaves_fresh_entries_only(root: Dir, ttl: u64)
    requires
        entries_hold_files(root),
    ensures
        forall|i: int|
            0 <= i < cleaned(root, ttl).len() ==> none_hollow(
                (#[trigger] cleaned(root, ttl)[i]).subdirs,
            ),
        entries_all(cleaned(root, ttl)) == entries(root).filter(is_fresh(ttl)),
        forall|i: int|
            0 <= i < entries_all(cleaned(root, ttl)).len() ==> !has_expired(
                (#[trigger] entries_all(cleaned(root, ttl))[i]).age,
                ttl,
            ),
{
    let roots = seq![root];
    let left = pruned(roots, ttl);
    let done = cleaned(root, ttl);
    assert(roots.drop_first() =~= seq![]);
    reveal_with_fuel(pruned, 2);
    reveal_with_fuel(all_entries_hold_files, 2);
    reveal_with_fuel(entries_all, 2);
    assert(all_entries_hold_files(roots));
    lemma_pruned_holds_files(roots, ttl);
    law_pruning_leaves_the_fresh_entries(roots, ttl);
    assert(entries_all(roots) =~= entries(root));
    assert(left.len() <= 1);
    assert forall|i: int| 0 <= i < done.len() implies none_hollow((#[trigger] done[i]).subdirs) by {
        lemma_swept_in(left[i].subdirs);
    }
    if left.len() == 1 {
        let kept = left[0];
        assert(left =~= seq![kept]);
        assert(done =~= seq![swept(kept)]);
        reveal_with_fuel(entries_hold_files, 2);
        lemma_swept_keeps_entries(kept.subdirs);
        assert(left.drop_first() =~= seq![]);
        assert(done.drop_first() =~= seq![]);
        assert(entries(swept(kept)) == entries(kept)) by {
            reveal_with_fuel(entries, 2);
        }
        assert(entries_all(done) =~= entries_all(left));
    } else {
        assert(done =~= seq![]);
        assert(left =~= seq![]);
    }
    let fresh = entries(root).filter(is_fresh(ttl));
    assert forall|i: int| 0 <= i < fresh.len() implies !has_expired(
        (#[trigger] fresh[i]).age,
        ttl,
    ) by {
        entries(root).lemma_filter_pred(is_fresh(ttl), i);
    }
}

// ---------------------------------------------------------------------------
// The list
// ---------------------------------------------------------------------------

/// The list that a listing walk comes to, which has these directories still to look at
/// and this list so far.
pub open spec fn collected(
    pending: Seq<Dir>,
    list: Seq<EntryView>,
    style: PathStyle,
    ttl: u64,
) -> Seq<EntryView>
    decreases size_all(pending),
    via collected_shrinks
{
    if pending.len() == 0 {
        list
    } else {
        let found = described_in(pending[0]);
        collected(
            walk_on(pending.drop_first(), found.below()),
            walk_lists(list, found, style, ttl),
            style,
            ttl,
        )
    }
}

#[via_fn]
proof fn collected_shrinks(pending: Seq<Dir>, list: Seq<EntryView>, style: PathStyle, ttl: u64) {
    if pending.len() > 0 {
        lemma_walk_shrinks(pending);
    }
}

/// What is listed of some entries: each of those whose place is deep enough, once.
pub open spec fn listed_of(found: Seq<BodyView>, style: PathStyle, ttl: u64) -> Seq<EntryView>
    decreases found.len(),
{
    if found.len() == 0 {
        seq![]
    } else {
        let rest = listed_of(found.drop_first(), style, ttl);
        match listed_entry(style, found[0], ttl) {
            Some(entry) => seq![entry] + rest,
            None => rest,
        }
    }
}

/// A listing walk lists every entry whose place is deep enough, each once, in order.
pub proof fn law_walk_lists_every_entry(
    pending: Seq<Dir>,
    list: Seq<EntryView>,
    style: PathStyle,
    ttl: u64,
)
    ensures
        collected(pending, list, style, ttl) == list + listed_of(entries_all(pending), style, ttl),
    decreases size_all(pending),
{
    if pending.len() == 0 {
        assert(list + Seq::<EntryView>::empty() =~= list);
    } else {
        let first = pending[0];
        let found = described_in(first);
        let next = walk_on(pending.drop_first(), found.below());
        let more = walk_lists(list, found, style, ttl);
        lemma_walk_shrinks(pending);
        lemma_entries_of_step(pending);
        law_walk_lists_every_entry(next, more, style, ttl);
        let later = listed_of(entries_all(next), style, ttl);
        match first.entry {
            Some(body) => {
                assert(entries_all(pending).drop_first() =~= entries_all(next));
                match listed_entry(style, body, ttl) {
                    Some(entry) => {
                        assert(list.push(entry) + later =~= list + (seq![entry] + later));
                    },
                    None => {},
                }
            },
            None => {
                assert(Seq::<BodyView>::empty() + entries_all(next) =~= entries_all(next));
            },
        }
    }
}

/// The finished list holds exactly one entry for each entry in the cache whose place is
/// four or more components deep, with what was found of its body. `found` is what the
/// walk collected, and `list` is that put in order.
pub proof fn law_list_is_complete(
    root: Dir,
    found: Seq<CacheEntry>,
    list: Seq<CacheEntry>,
    style: PathStyle,
    ttl: u64,
)
    requires
        entry_views(found) == collected(seq![root], seq![], style, ttl),
        same_by_key(list, found),
    ensures
        entry_views(list).to_multiset() == listed_of(entries(root), style, ttl).to_multiset(),
        list.len() == listed_of(entries(root), style, ttl).len(),
{
    broadcast use vstd::seq_lib::group_to_multiset_ensures;

    let expected = listed_of(entries(root), style, ttl);
    assert(seq![root].drop_first() =~= seq![]);
    reveal_with_fuel(entries_all, 2);
    assert(entries_all(seq![root]) =~= entries(root));
    law_walk_lists_every_entry(seq![root], seq![], style, ttl);
    assert(Seq::<EntryView>::empty() + expected =~= expected);
    law_ordering_keeps_every_entry(list, found);
    lemma_views_of_same_entries(list, found);
    assert(entry_views(list).len() == list.len());
    assert(entry_views(list).to_multiset().len() == expected.to_multiset().len());
}

/// Each entry in the cache whose place is four or more components deep is in the list,
/// and whatever is in the list is such an entry.
pub proof fn law_list_holds_the_entries(
    root: Dir,
    found: Seq<CacheEntry>,
    list: Seq<CacheEntry>,
    style: PathStyle,
    ttl: u64,
    entry: EntryView,
)
    requires
        entry_views(found) == collected(seq![root], seq![], style, ttl),
        same_by_key(list, found),
    ensures
        entry_views(list).contains(entry) <==> exists|i: int|
            0 <= i < entries(root).len() && entry_at(
                style,
                (#[trigger] entries(root)[i]).relative,
            ) is Some && listed_entry(style, entries(root)[i], ttl) == Some(entry),
{
    broadcast use vstd::seq_lib::group_to_multiset_ensures;

    law_list_is_complete(root, found, list, style, ttl);
    lemma_listed_of_contains(entries(root), style, ttl, entry);
    let expected = listed_of(entries(root), style, ttl);
    assert(entry_views(list).contains(entry) <==> entry_views(list).to_multiset().count(entry) > 0);
    assert(expected.contains(entry) <==> expected.to_multiset().count(entry) > 0);
}

/// What is listed of some entries is what is listed of one of them.
proof fn lemma_listed_of_contains(
    found: Seq<BodyView>,
    style: PathStyle,
    ttl: u64,
    entry: EntryView,
)
    ensures
        listed_of(found, style, ttl).contains(entry) <==> exists|i: int|
            0 <= i < found.len() && entry_at(style, (#[trigger] found[i]).relative) is Some
                && listed_entry(style, found[i], ttl) == Some(entry),
    decreases found.len(),
{
    if found.len() > 0 {
        let rest = found.drop_first();
        let all = listed_of(found, style, ttl);
        let later = listed_of(rest, style, ttl);
        lemma_listed_of_contains(rest, style, ttl, entry);
        if all.contains(entry) {
            if listed_entry(style, found[0], ttl) == Some(entry) {
                assert(entry_at(style, found[0].relative) is Some);
            } else {
                let k = all.index_of(entry);
                if listed_entry(style, found[0], ttl) is Some {
                    assert(all[k] == later[k - 1]);
                    assert(later.contains(later[k - 1]));
                }
                let i = choose|i: int|
                    0 <= i < rest.len() && entry_at(style, (#[trigger] rest[i]).relative) is Some
                        && listed_entry(style, rest[i], ttl) == Some(entry);
                assert(found[i + 1] == rest[i]);
            }
        }
        if exists|i: int|
            0 <= i < found.len() && entry_at(style, (#[trigger] found[i]).relative) is Some
                && listed_entry(style, found[i], ttl) == Some(entry) {
            let i = choose|i: int|
                0 <= i < found.len() && entry_at(style, (#[trigger] found[i]).relative) is Some
                    && listed_entry(style, found[i], ttl) == Some(entry);
            if i == 0 {
                assert(all[0] == entry);
            } else {
                assert(rest[i - 1] == found[i]);
                let k = later.index_of(entry);
                if listed_entry(style, found[0], ttl) is Some {
                    assert(all[k + 1] == entry);
                } else {
                    assert(all[k] == entry);
                }
            }
        }
    }
}

} // verus!
