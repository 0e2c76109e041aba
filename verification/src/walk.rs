//! Walking the cache directory, one step at a time.
//!
//! A walk does not touch the disk itself: it says which directory to look at next,
//! is told what was found there, and says what to do about it. `P` is whatever
//! directories are known by.

use vstd::prelude::*;

use crate::cache::{has_expired, is_cache_entry_expired, law_expiry_is_by_time, Age};
use crate::listing::{
    cache_entry_from_path, entry_views, listed_entry, BodyView, CacheEntry, EntryView,
};
use crate::paths::PathStyle;

verus! {

// ---------------------------------------------------------------------------
// Visiting every entry
// ---------------------------------------------------------------------------

/// A walk through all directories, each before those below it, down to the entries.
pub struct EntryWalk<P> {
    /// The directories still to be looked at, the next one last.
    stack: Vec<P>,
}

impl<P> View for EntryWalk<P> {
    type V = Seq<P>;

    /// The directories still to be looked at, the next one first.
    closed spec fn view(&self) -> Seq<P> {
        self.stack@.reverse()
    }
}

impl<P> EntryWalk<P> {
    /// A walk that starts at `root`.
    pub fn new(root: P) -> (r: EntryWalk<P>)
        ensures
            r@ == seq![root],
    {
        let mut stack: Vec<P> = Vec::new();
        stack.push(root);
        let r = EntryWalk { stack };
        assert(r@ =~= seq![root]);
        r
    }

    /// The directory to look at now, if any is left.
    pub fn next(&mut self) -> (r: Option<P>)
        ensures
            match r {
                Some(path) => old(self)@.len() > 0 && path == old(self)@[0] && final(self)@
                    == old(self)@.drop_first(),
                None => old(self)@.len() == 0 && final(self)@ == old(self)@,
            },
    {
        let ghost before = self@;
        let r = self.stack.pop();
        proof {
            if r is Some {
                assert(self@ =~= before.drop_first());
            } else {
                assert(self@ =~= before);
            }
        }
        r
    }

    /// Puts the directories below the one looked at in front of the rest.
    fn descend(&mut self, subdirs: Vec<P>)
        ensures
            final(self)@ == subdirs@ + old(self)@,
    {
        let ghost before = self@;
        let ghost all = subdirs@;
        let mut rest = subdirs;
        while rest.len() > 0
            invariant
                rest@.len() <= all.len(),
                rest@ == all.take(rest@.len() as int),
                self@ == all.skip(rest@.len() as int) + before,
            decreases rest@.len(),
        {
            let ghost n = rest@.len() as int;
            let ghost now = self@;
            if let Some(path) = rest.pop() {
                self.stack.push(path);
                assert(self@ =~= seq![path] + now);
                assert(all.skip(n - 1) =~= seq![path] + all.skip(n));
                assert(self@ =~= all.skip(n - 1) + before);
                assert(rest@ =~= all.take(n - 1));
            }
        }
        assert(all.skip(0) =~= all);
    }

    /// Whether the directory just looked at is to be removed, because it is an entry
    /// that has outlived `ttl`; one that is no entry is looked into.
    pub fn prune_expired_entries(&mut self, found: Found<P>, ttl: u64) -> (remove: bool)
        ensures
            remove == walk_removes(found@, ttl),
            final(self)@ == walk_on(old(self)@, found@.below()),
    {
        match found {
            Found::Entry { age } => is_cache_entry_expired(age, ttl),
            Found::Directory { subdirs } => {
                self.descend(subdirs);
                false
            },
        }
    }

    /// Adds the directory just looked at to the list, if it is an entry that is listed;
    /// one that is no entry is looked into.
    pub fn collect_cache_entries(
        &mut self,
        entries: &mut Vec<CacheEntry>,
        found: Described<P>,
        style: PathStyle,
        ttl: u64,
    )
        ensures
            entry_views(final(entries)@) == walk_lists(
                entry_views(old(entries)@),
                found@,
                style,
                ttl,
            ),
            final(self)@ == walk_on(old(self)@, found@.below()),
    {
        match found {
            Described::Entry { relative, size, age, expires } => {
                let ghost before = entries@;
                if let Some(entry) = cache_entry_from_path(
                    style,
                    relative.as_str(),
                    size,
                    age,
                    expires,
                    ttl,
                ) {
                    entries.push(entry);
                    assert(entry_views(entries@) =~= entry_views(before).push(entry@));
                }
            },
            Described::Directory { subdirs } => {
                self.descend(subdirs);
            },
        }
    }
}

/// What was found in a directory: the body of an entry, with its age, or other directories.
pub enum Found<P> {
    Entry { age: Option<Age> },
    Directory { subdirs: Vec<P> },
}

/// What was found in a directory.
pub enum FoundView<P> {
    Entry { age: Option<Age> },
    Directory { subdirs: Seq<P> },
}

impl<P> View for Found<P> {
    type V = FoundView<P>;

    open spec fn view(&self) -> FoundView<P> {
        match self {
            Found::Entry { age } => FoundView::Entry { age: *age },
            Found::Directory { subdirs } => FoundView::Directory { subdirs: subdirs@ },
        }
    }
}

impl<P> FoundView<P> {
    /// The directories to look into, if this is no entry.
    pub open spec fn below(self) -> Option<Seq<P>> {
        match self {
            FoundView::Entry { .. } => None,
            FoundView::Directory { subdirs } => Some(subdirs),
        }
    }
}

/// What was found in a directory, for the list: the body of an entry, with all that is
/// listed of it, or other directories.
pub enum Described<P> {
    Entry { relative: String, size: u64, age: Option<Age>, expires: bool },
    Directory { subdirs: Vec<P> },
}

/// What was found in a directory, for the list.
pub enum DescribedView<P> {
    Entry { body: BodyView },
    Directory { subdirs: Seq<P> },
}

impl<P> View for Described<P> {
    type V = DescribedView<P>;

    open spec fn view(&self) -> DescribedView<P> {
        match self {
            Described::Entry { relative, size, age, expires } => DescribedView::Entry {
                body: BodyView { relative: relative@, size: *size, age: *age, expires: *expires },
            },
            Described::Directory { subdirs } => DescribedView::Directory { subdirs: subdirs@ },
        }
    }
}

impl<P> DescribedView<P> {
    /// The directories to look into, if this is no entry.
    pub open spec fn below(self) -> Option<Seq<P>> {
        match self {
            DescribedView::Entry { .. } => None,
            DescribedView::Directory { subdirs } => Some(subdirs),
        }
    }
}

/// What a walk has still to look at, after it looked at a directory with `below` in it:
/// these come before the rest. Nothing is looked into in an entry.
pub open spec fn walk_on<P>(rest: Seq<P>, below: Option<Seq<P>>) -> Seq<P> {
    match below {
        Some(subdirs) => subdirs + rest,
        None => rest,
    }
}

/// Whether a pruning walk removes the directory in which this was found: it is an entry
/// that has outlived `ttl`.
pub open spec fn walk_removes<P>(found: FoundView<P>, ttl: u64) -> bool {
    match found {
        FoundView::Entry { age } => has_expired(age, ttl),
        FoundView::Directory { .. } => false,
    }
}

/// The list of a listing walk, after this was found in a directory.
pub open spec fn walk_lists<P>(
    list: Seq<EntryView>,
    found: DescribedView<P>,
    style: PathStyle,
    ttl: u64,
) -> Seq<EntryView> {
    match found {
        DescribedView::Entry { body } => match listed_entry(style, body, ttl) {
            Some(entry) => list.push(entry),
            None => list,
        },
        DescribedView::Directory { .. } => list,
    }
}

// ---------------------------------------------------------------------------
// Removing empty directories
// ---------------------------------------------------------------------------

/// A directory whose subdirectories are being gone through.
struct Frame<P> {
    path: P,
    /// The subdirectories still to be visited, the next one last.
    pending: Vec<P>,
    empty: bool,
}

/// A directory whose subdirectories are being gone through: those still to be visited,
/// and whether nothing was found in it so far that stays.
pub struct FrameView<P> {
    pub path: P,
    pub pending: Seq<P>,
    pub empty: bool,
}

impl<P> Frame<P> {
    spec fn view(&self) -> FrameView<P> {
        FrameView { path: self.path, pending: self.pending@.reverse(), empty: self.empty }
    }
}

/// A sweep through all directories that removes the empty ones, each after those below it.
pub struct EmptyDirSweep<P> {
    frames: Vec<Frame<P>>,
}

/// What a sweep wants done.
pub enum SweepAction<P> {
    /// Look into a directory.
    Visit(P),
    /// Remove a directory.
    Remove(P),
    /// Nothing more; says whether the directory that the sweep started at is empty.
    Done(bool),
}

/// The innermost directory is not empty.
pub open spec fn mark_used<P>(frames: Seq<FrameView<P>>) -> Seq<FrameView<P>> {
    frames.drop_last().push(
        FrameView { path: frames.last().path, pending: frames.last().pending, empty: false },
    )
}

/// What a sweep does next: it visits the next subdirectory of the innermost directory.
/// If none is left, it leaves that directory and removes it if it is empty; a directory
/// that stays makes the one around it one that stays.
pub open spec fn sweep_next<P>(frames: Seq<FrameView<P>>) -> (Seq<FrameView<P>>, SweepAction<P>)
    decreases frames.len(),
{
    if frames.len() == 0 {
        (frames, SweepAction::Done(false))
    } else {
        let top = frames.last();
        let rest = frames.drop_last();
        if top.pending.len() > 0 {
            (
                rest.push(
                    FrameView {
                        path: top.path,
                        pending: top.pending.drop_first(),
                        empty: top.empty,
                    },
                ),
                SweepAction::Visit(top.pending[0]),
            )
        } else if rest.len() == 0 {
            (rest, SweepAction::Done(top.empty))
        } else if top.empty {
            (rest, SweepAction::Remove(top.path))
        } else {
            sweep_next(mark_used(rest))
        }
    }
}

impl<P> View for EmptyDirSweep<P> {
    type V = Seq<FrameView<P>>;

    /// The directories being gone through, the innermost last.
    closed spec fn view(&self) -> Seq<FrameView<P>> {
        self.frames@.map_values(|frame: Frame<P>| frame.view())
    }
}

/// The items in reverse.
fn reversed<P>(items: Vec<P>) -> (r: Vec<P>)
    ensures
        r@ == items@.reverse(),
{
    let ghost all = items@;
    let mut rest = items;
    let mut r: Vec<P> = Vec::new();
    while rest.len() > 0
        invariant
            rest@.len() + r@.len() == all.len(),
            rest@ == all.take(rest@.len() as int),
            r@ == all.reverse().take(r@.len() as int),
        decreases rest@.len(),
    {
        if let Some(item) = rest.pop() {
            r.push(item);
            assert(r@ =~= all.reverse().take(r@.len() as int));
        }
    }
    assert(r@ =~= all.reverse());
    r
}

impl<P> EmptyDirSweep<P> {
    /// A sweep of `root`, given the directories in it and whether anything else is.
    pub fn new(root: P, subdirs: Vec<P>, has_file: bool) -> (r: EmptyDirSweep<P>)
        ensures
            r@ == seq![FrameView { path: root, pending: subdirs@, empty: !has_file }],
    {
        let mut r = EmptyDirSweep { frames: Vec::new() };
        r.entered(root, subdirs, has_file);
        assert(r@ =~= seq![FrameView { path: root, pending: subdirs@, empty: !has_file }]);
        r
    }

    /// Tells what a directory that was to be visited holds: the directories in it, and
    /// whether anything else is.
    pub fn entered(&mut self, path: P, subdirs: Vec<P>, has_file: bool)
        ensures
            final(self)@ == old(self)@.push(
                FrameView { path, pending: subdirs@, empty: !has_file },
            ),
    {
        let ghost before = self@;
        let pending = reversed(subdirs);
        assert(pending@.reverse() =~= subdirs@);
        self.frames.push(Frame { path, pending, empty: !has_file });
        assert(self@ =~= before.push(FrameView { path, pending: subdirs@, empty: !has_file }));
    }

    /// What to do next.
    pub fn remove_empty_dirs(&mut self) -> (r: SweepAction<P>)
        ensures
            (final(self)@, r) == sweep_next(old(self)@),
    {
        let ghost start = self@;
        loop
            invariant
                start == old(self)@,
                sweep_next(self@) == sweep_next(start),
            decreases self.frames@.len(),
        {
            let ghost before = self@;
            let mut top = match self.frames.pop() {
                Some(top) => top,
                None => {
                    assert(self@ =~= before);
                    return SweepAction::Done(false);
                },
            };
            assert(before.last() == top.view());
            assert(self@ =~= before.drop_last());
            let ghost pending = top.view().pending;
            let ghost path = top.path;
            let ghost empty = top.empty;
            if let Some(next) = top.pending.pop() {
                assert(top.view().pending =~= pending.drop_first());
                assert(top.view() == (FrameView { path, pending: pending.drop_first(), empty }));
                assert(next == pending[0]);
                let ghost now = self@;
                self.frames.push(top);
                assert(self@ =~= now.push(top.view()));
                return SweepAction::Visit(next);
            }
            let mut parent = match self.frames.pop() {
                Some(parent) => parent,
                None => {
                    return SweepAction::Done(top.empty);
                },
            };
            let ghost rest = before.drop_last();
            assert(rest.last() == parent.view());
            assert(self@ =~= rest.drop_last());
            let ghost outer = self@;
            if top.empty {
                self.frames.push(parent);
                assert(self@ =~= rest);
                return SweepAction::Remove(top.path);
            }
            parent.empty = false;
            self.frames.push(parent);
            assert(self@ =~= mark_used(rest));
        }
    }
}

// ---------------------------------------------------------------------------
// Laws
// ---------------------------------------------------------------------------

/// A walk looks into every directory that is no entry, at what is directly below it in the
/// order given, before it goes on with what was still to be looked at; it does not look into
/// an entry.
pub proof fn law_walk_looks_below_first<P>(
    rest: Seq<P>,
    subdirs: Seq<P>,
    age: Option<Age>,
    body: BodyView,
)
    ensures
        walk_on(rest, (FoundView::Directory { subdirs }).below()) == subdirs + rest,
        walk_on(rest, (DescribedView::Directory { subdirs }).below()) == subdirs + rest,
        walk_on(rest, FoundView::<P>::Entry { age }.below()) == rest,
        walk_on(rest, DescribedView::<P>::Entry { body }.below()) == rest,
{
}

/// A pruning walk removes an entry exactly if its age is unknown or greater than `ttl`, to
/// the nanosecond, and never a directory that is no entry.
pub proof fn law_walk_removes_by_age<P>(age: Age, subdirs: Seq<P>, ttl: u64)
    requires
        age.nanos < 1_000_000_000,
    ensures
        walk_removes(FoundView::<P>::Entry { age: Some(age) }, ttl) <==> age.secs * 1_000_000_000
            + age.nanos > ttl * 1_000_000_000,
        walk_removes(FoundView::<P>::Entry { age: None }, ttl),
        !walk_removes(FoundView::Directory { subdirs }, ttl),
{
    law_expiry_is_by_time(age, ttl, ttl);
}

/// A listing walk adds what is listed of an entry to the end of the list, if it is listed,
/// and leaves the list as it is otherwise.
pub proof fn law_walk_lists_at_the_end<P>(
    list: Seq<EntryView>,
    body: BodyView,
    subdirs: Seq<P>,
    style: PathStyle,
    ttl: u64,
)
    ensures
        walk_lists(list, DescribedView::<P>::Entry { body }, style, ttl) == list + (match listed_entry(
            style,
            body,
            ttl,
        ) {
            Some(entry) => seq![entry],
            None => seq![],
        }),
        walk_lists(list, DescribedView::Directory { subdirs }, style, ttl) == list,
{
    assert(list + Seq::<EntryView>::empty() =~= list);
    if let Some(entry) = listed_entry(style, body, ttl) {
        assert(list + seq![entry] =~= list.push(entry));
    }
}

/// A sweep visits the directories in the innermost one first, in order. When none is left in
/// it, an empty one is removed, and one that is not makes the one around it one that is not;
/// the directory that the sweep started at is never removed, but told of.
pub proof fn law_sweep_goes_inside_out<P>(
    outer: Seq<FrameView<P>>,
    around: FrameView<P>,
    path: P,
    next: P,
    later: Seq<P>,
    empty: bool,
)
    ensures
        sweep_next(outer.push(FrameView { path, pending: seq![next] + later, empty })) == (
            outer.push(FrameView { path, pending: later, empty }),
            SweepAction::Visit(next),
        ),
        sweep_next(outer.push(around).push(FrameView { path, pending: seq![], empty: true })) == (
            outer.push(around),
            SweepAction::Remove(path),
        ),
        sweep_next(outer.push(around).push(FrameView { path, pending: seq![], empty: false }))
            == sweep_next(
            outer.push(FrameView { path: around.path, pending: around.pending, empty: false }),
        ),
        sweep_next(seq![FrameView { path, pending: seq![], empty }]) == (
            Seq::<FrameView<P>>::empty(),
            SweepAction::<P>::Done(empty),
        ),
        sweep_next(Seq::<FrameView<P>>::empty()) == (
            Seq::<FrameView<P>>::empty(),
            SweepAction::<P>::Done(false),
        ),
{
    let busy = outer.push(FrameView { path, pending: seq![next] + later, empty });
    assert(busy.drop_last() =~= outer);
    assert((seq![next] + later).drop_first() =~= later);
    let inside = outer.push(around);
    assert(inside.drop_last() =~= outer);
    assert(inside.push(FrameView { path, pending: seq![], empty: true }).drop_last() =~= inside);
    assert(inside.push(FrameView { path, pending: seq![], empty: false }).drop_last() =~= inside);
    assert(seq![FrameView { path, pending: seq![], empty }].drop_last() =~= seq![]);
}

/// What is seen of a find is all that was found.
pub proof fn law_finds_are_seen_whole<P>(found: Found<P>, described: Described<P>)
    ensures
        match found {
            Found::Entry { age } => found@ == (FoundView::<P>::Entry { age }),
            Found::Directory { subdirs } => found@ == (FoundView::Directory {
                subdirs: subdirs@,
            }),
        },
        match described {
            Described::Entry { relative, size, age, expires } => described@
                == (DescribedView::<P>::Entry {
                body: BodyView { relative: relative@, size, age, expires },
            }),
            Described::Directory { subdirs } => described@ == (DescribedView::Directory {
                subdirs: subdirs@,
            }),
        },
{
}

} // verus!
