//! Eager invalidation: what changes under the watched directories is forgotten by the caches, in
//! batches.
//!
//! The caches check what they serve against the file system anyway. A change that goes unnoticed
//! costs nothing but a listing or a parse that is kept longer than it is of use.

use dashmap::DashSet;
use vstd::prelude::*;

use crate::cache::{served, FileCache, Stamped};
use crate::dir_cache::{DirCache, ListingView};
use crate::extractors::StructuralNode;
use crate::path_table::{key_of, key_view, PathKey};
use crate::paths::{copy_parts, path_views, PathView, RepoPath};

verus! {

/// How long, in milliseconds, nothing must change before a batch is applied.
pub const DEBOUNCE_MS: u64 = 300;

/// How many batches of late changes are applied before the next change is waited for.
pub const MAX_DRAIN_PASSES: usize = 20;

/// What kind of event the file system reports.
#[derive(Clone, Copy, PartialEq, Eq, Structural)]
pub enum EventClass {
    Any,
    Access,
    Create,
    Modify,
    Remove,
    Other,
}

/// Whether an event of this kind changes what a cache may hold.
pub fn is_relevant(kind: EventClass) -> (r: bool)
    ensures
        r == (kind is Create || kind is Modify || kind is Remove),
{
    match kind {
        EventClass::Create => true,
        EventClass::Modify => true,
        EventClass::Remove => true,
        _ => false,
    }
}

/// The hash set of the `dashmap` crate.
#[verifier::external_type_specification]
#[verifier::external_body]
#[verifier::reject_recursive_types(K)]
#[verifier::reject_recursive_types(S)]
pub struct ExDashSet<K, S>(DashSet<K, S>);

/// The keys that a `DashSet` holds.
pub uninterp spec fn held(set: DashSet<PathKey>) -> Set<PathView>;

/// Calls `DashSet::new`, which makes a set that holds nothing.
#[verifier::external_body]
fn set_new() -> (r: DashSet<PathKey>)
    ensures
        held(r) == Set::<PathView>::empty(),
{
    DashSet::new()
}

/// Calls `DashSet::insert`, which adds the key to the set.
#[verifier::external_body]
fn set_insert(set: &mut DashSet<PathKey>, key: PathKey)
    ensures
        held(*final(set)) == held(*old(set)).insert(key_view(key)),
{
    set.insert(key);
}

/// The paths of a sequence of keys.
pub open spec fn key_views(v: Seq<PathKey>) -> Seq<PathView> {
    Seq::new(v.len(), |i: int| key_view(v[i]))
}

/// Calls `DashSet::iter` and copies out the keys that it walks: each key that the set holds comes
/// once, and nothing else does. In which order they come is not stated.
#[verifier::external_body]
fn set_keys(set: &DashSet<PathKey>) -> (r: Vec<PathKey>)
    ensures
        key_views(r@).to_set() == held(*set),
        key_views(r@).no_duplicates(),
{
    set.iter().map(|key| key.key().clone()).collect()
}

/// Whether `path` is one of `roots` or lies below one of them.
pub open spec fn is_covered(roots: Set<PathView>, path: PathView) -> bool {
    exists|root: PathView| #[trigger] roots.contains(root) && path.starts_with(root)
}

/// The directories that are watched, each with all that lies below it.
pub struct RepoWatcher {
    watched_roots: DashSet<PathKey>,
}

impl View for RepoWatcher {
    type V = Set<PathView>;

    closed spec fn view(&self) -> Set<PathView> {
        held(self.watched_roots)
    }
}

impl RepoWatcher {
    /// Nothing is watched yet.
    pub fn new() -> (r: RepoWatcher)
        ensures
            r@ == Set::<PathView>::empty(),
    {
        RepoWatcher { watched_roots: set_new() }
    }

    /// The directories that are watched.
    pub fn roots(&self) -> (r: Vec<RepoPath>)
        ensures
            path_views(r@).to_set() == self@,
            path_views(r@).no_duplicates(),
    {
        let keys = set_keys(&self.watched_roots);
        let n: usize = keys.len();
        let mut out: Vec<RepoPath> = Vec::new();
        let mut i: usize = 0;
        while i < n
            invariant
                i <= n == keys@.len(),
                path_views(out@) == key_views(keys@).take(i as int),
            decreases n - i,
        {
            let ghost before = out@;
            let parts = copy_parts(&keys[i].1, keys[i].1.len());
            let path = RepoPath { anchored: keys[i].0, parts };
            assert(path@ =~= key_views(keys@)[i as int]);
            out.push(path);
            assert(path_views(out@) =~= path_views(before).push(path@));
            i = i + 1;
            assert(path_views(out@) =~= key_views(keys@).take(i as int));
        }
        assert(path_views(out@) =~= key_views(keys@));
        out
    }

    /// What to start watching so that `root`, a path without links in it, is watched: `root`
    /// itself, or nothing where it is covered already. There is nothing to watch where there is no
    /// such path.
    pub fn ensure_watching(&self, root: Option<&RepoPath>) -> (r: Option<RepoPath>)
        ensures
            match r {
                Some(path) => root matches Some(wanted) && path@ == wanted@ && !is_covered(
                    self@,
                    wanted@,
                ),
                None => root matches Some(wanted) ==> is_covered(self@, wanted@),
            },
    {
        let wanted = match root {
            Some(path) => path,
            None => {
                return None;
            },
        };
        let roots = self.roots();
        let n: usize = roots.len();
        let mut i: usize = 0;
        while i < n
            invariant
                i <= n == roots@.len(),
                root == Some(wanted),
                path_views(roots@).to_set() == self@,
                forall|j: int| 0 <= j < i ==> !wanted@.starts_with(#[trigger] path_views(roots@)[j]),
            decreases n - i,
        {
            if wanted.starts_with(&roots[i]) {
                assert(path_views(roots@)[i as int] == roots@[i as int]@);
                assert(path_views(roots@).contains(roots@[i as int]@));
                assert(self@.contains(roots@[i as int]@));
                return None;
            }
            i = i + 1;
        }
        proof {
            if is_covered(self@, wanted@) {
                let w = choose|w: PathView| #[trigger] self@.contains(w) && wanted@.starts_with(w);
                assert(path_views(roots@).contains(w));
            }
        }
        Some(wanted.copy())
    }

    /// Takes note of whether watching `root` could be started. Where it could not, `root` stays
    /// unwatched, and is tried again when it is next asked for.
    pub fn started(&mut self, root: &RepoPath, succeeded: bool)
        ensures
            final(self)@ == (if succeeded {
                old(self)@.insert(root@)
            } else {
                old(self)@
            }),
    {
        if succeeded {
            set_insert(&mut self.watched_roots, key_of(root));
        }
    }
}

/// Once `root` is watched, everything in it is covered, and what was covered before still is.
pub proof fn law_watching_covers(roots: Set<PathView>, root: PathView, path: PathView)
    ensures
        path.starts_with(root) ==> is_covered(roots.insert(root), path),
        is_covered(roots, path) ==> is_covered(roots.insert(root), path),
{
    let more = roots.insert(root);
    assert(more.contains(root));
    if is_covered(roots, path) {
        let w = choose|w: PathView| #[trigger] roots.contains(w) && path.starts_with(w);
        assert(more.contains(w));
    }
}

/// A directory below a covered one is covered, so that it gets no watch of its own.
pub proof fn law_subdirectories_are_covered(roots: Set<PathView>, dir: PathView, path: PathView)
    requires
        is_covered(roots, dir),
        path.starts_with(dir),
    ensures
        is_covered(roots, path),
{
    let w = choose|w: PathView| #[trigger] roots.contains(w) && dir.starts_with(w);
    assert(path.parts.take(w.parts.len() as int) =~= dir.parts.take(w.parts.len() as int)) by {
        assert(dir.parts =~= path.parts.take(dir.parts.len() as int));
    }
    assert(roots.contains(w) && path.starts_with(w));
}

/// The directories whose listings a batch of changes makes useless: the parent of each changed
/// path, and the path itself, which may be a directory.
pub open spec fn touched_dirs(paths: Seq<PathView>) -> Set<PathView> {
    Set::new(|d: PathView| exists|i: int| 0 <= i < paths.len() && touches(#[trigger] paths[i], d))
}

/// Whether a change at `path` makes the listing of `dir` useless.
pub open spec fn touches(path: PathView, dir: PathView) -> bool {
    path == dir || path.parent() == Some(dir)
}

/// What a batch leaves of the cached listings.
pub open spec fn dirs_after(
    dirs: Map<PathView, ListingView>,
    paths: Seq<PathView>,
) -> Map<PathView, ListingView> {
    dirs.remove_keys(touched_dirs(paths))
}

/// What a batch leaves of the cached nodes.
pub open spec fn files_after(
    files: Map<PathView, Stamped<Vec<StructuralNode>>>,
    paths: Seq<PathView>,
) -> Map<PathView, Stamped<Vec<StructuralNode>>> {
    files.remove_keys(paths.to_set())
}

/// Forgets what the caches hold of the changed `paths` and of the directories that they are in.
pub fn apply_batch(paths: &Vec<RepoPath>, dir_cache: &mut DirCache, file_cache: &mut FileCache)
    requires
        old(dir_cache).wf(),
        old(file_cache).wf(),
    ensures
        final(dir_cache).wf(),
        final(file_cache).wf(),
        final(dir_cache)@ == dirs_after(old(dir_cache)@, path_views(paths@)),
        final(file_cache)@ == files_after(old(file_cache)@, path_views(paths@)),
{
    let n: usize = paths.len();
    let ghost all = path_views(paths@);
    let mut i: usize = 0;
    assert(dir_cache@ =~= old(dir_cache)@.remove_keys(touched_dirs(all.take(0))));
    assert(file_cache@ =~= old(file_cache)@.remove_keys(all.take(0).to_set()));
    while i < n
        invariant
            i <= n == paths@.len(),
            all == path_views(paths@),
            dir_cache.wf(),
            file_cache.wf(),
            dir_cache@ == old(dir_cache)@.remove_keys(touched_dirs(all.take(i as int))),
            file_cache@ == old(file_cache)@.remove_keys(all.take(i as int).to_set()),
        decreases n - i,
    {
        let path = &paths[i];
        let ghost done = all.take(i as int);
        let ghost next = all.take(i + 1);
        assert(next =~= done.push(path@));
        file_cache.invalidate(path);
        if let Some(parent) = path.parent() {
            dir_cache.invalidate(&parent);
        }
        dir_cache.invalidate(path);
        proof {
            assert(next.to_set() =~= done.to_set().insert(path@)) by {
                broadcast use vstd::seq_lib::group_seq_properties;

                assert forall|p: PathView| next.to_set().contains(p)
                    == done.to_set().insert(path@).contains(p) by {
                    if done.contains(p) {
                        let k = choose|k: int| 0 <= k < done.len() && done[k] == p;
                        assert(next[k] == p);
                    }
                    if p == path@ {
                        assert(next[i as int] == p);
                    }
                    if next.contains(p) {
                        let k = choose|k: int| 0 <= k < next.len() && next[k] == p;
                        if k < i {
                            assert(done[k] == p);
                        }
                    }
                }
            }
            assert forall|d: PathView| touched_dirs(next).contains(d) == (touched_dirs(
                done,
            ).contains(d) || touches(path@, d)) by {
                if touched_dirs(done).contains(d) {
                    let k = choose|k: int| 0 <= k < done.len() && touches(#[trigger] done[k], d);
                    assert(touches(next[k], d));
                }
                if touches(path@, d) {
                    assert(touches(next[i as int], d));
                }
                if touched_dirs(next).contains(d) {
                    let k = choose|k: int| 0 <= k < next.len() && touches(#[trigger] next[k], d);
                    if k < i {
                        assert(touches(done[k], d));
                    }
                }
            }
            assert(dir_cache@ =~= old(dir_cache)@.remove_keys(touched_dirs(next)));
            assert(file_cache@ =~= old(file_cache)@.remove_keys(next.to_set()));
        }
        i = i + 1;
    }
    assert(all.take(n as int) =~= all);
}

/// After a batch, nothing is cached of a path that changed, nor the listing of the directory that
/// it is in.
pub proof fn law_changes_are_forgotten(
    dirs: Map<PathView, ListingView>,
    files: Map<PathView, Stamped<Vec<StructuralNode>>>,
    paths: Seq<PathView>,
    i: int,
)
    requires
        0 <= i < paths.len(),
    ensures
        !dirs_after(dirs, paths).contains_key(paths[i]),
        paths[i].parent() matches Some(dir) ==> !dirs_after(dirs, paths).contains_key(dir),
        forall|mtime: i128, len: u64| #[trigger]
            served(files_after(files, paths), paths[i], mtime, len) is None,
{
    assert(touches(paths[i], paths[i]));
    assert(touched_dirs(paths).contains(paths[i]));
    if let Some(dir) = paths[i].parent() {
        assert(touches(paths[i], dir));
        assert(touched_dirs(paths).contains(dir));
    }
    assert(paths.contains(paths[i]));
    assert(paths.to_set().contains(paths[i]));
}

/// A batch only ever makes entries disappear: what is left is as it was, and what has nothing to
/// do with the changed paths is left.
pub proof fn law_batches_only_remove(
    dirs: Map<PathView, ListingView>,
    files: Map<PathView, Stamped<Vec<StructuralNode>>>,
    paths: Seq<PathView>,
)
    ensures
        dirs_after(dirs, paths).submap_of(dirs),
        files_after(files, paths).submap_of(files),
        forall|d: PathView| #[trigger]
            dirs.contains_key(d) && !touched_dirs(paths).contains(d) ==> dirs_after(
                dirs,
                paths,
            ).contains_key(d),
        forall|p: PathView, mtime: i128, len: u64|
            !paths.contains(p) ==> #[trigger] served(files_after(files, paths), p, mtime, len)
                == served(files, p, mtime, len),
        forall|p: PathView, mtime: i128, len: u64| #[trigger]
            served(files_after(files, paths), p, mtime, len) is Some ==> served(
                files_after(files, paths),
                p,
                mtime,
                len,
            ) == served(files, p, mtime, len),
{
}

/// Where the drain of the changes stands.
#[derive(Clone, Copy, PartialEq, Eq, Structural)]
pub enum DrainPhase {
    /// Waits for a change.
    Idle,
    /// Adds changes to the batch until nothing has changed for a while.
    Gathering,
    /// Takes up what changed while batches were applied.
    Late,
    /// No more changes will come.
    Closed,
}

/// What comes of waiting for a change.
pub enum DrainEvent {
    /// A path changed.
    Changed(RepoPath),
    /// Nothing changed: the time is up, or no change is queued.
    Nothing,
    /// No more changes will come.
    Closed,
}

/// What a `DrainEvent` stands for.
pub enum DrainEventView {
    Changed(PathView),
    Nothing,
    Closed,
}

impl View for DrainEvent {
    type V = DrainEventView;

    open spec fn view(&self) -> DrainEventView {
        match self {
            DrainEvent::Changed(path) => DrainEventView::Changed(path@),
            DrainEvent::Nothing => DrainEventView::Nothing,
            DrainEvent::Closed => DrainEventView::Closed,
        }
    }
}

/// Collects changes to batches. The collector says through its phase what it waits for: any
/// change (`Idle`), a change within the quiet time (`Gathering`), or a change that is queued
/// already (`Late`).
pub struct Drain {
    phase: DrainPhase,
    batch: Vec<RepoPath>,
    passes: usize,
}

/// What a `Drain` stands for.
#[verifier::ext_equal]
pub struct DrainView {
    pub phase: DrainPhase,
    pub batch: Seq<PathView>,
    pub passes: nat,
}

impl View for Drain {
    type V = DrainView;

    closed spec fn view(&self) -> DrainView {
        DrainView {
            phase: self.phase,
            batch: path_views(self.batch@),
            passes: self.passes as nat,
        }
    }
}

impl DrainView {
    /// Nothing is collected unless a batch is being gathered, and the passes are within bounds.
    pub open spec fn wf(self) -> bool {
        &&& self.phase is Idle || self.phase is Closed ==> self.batch.len() == 0
        &&& self.phase is Gathering ==> self.batch.len() > 0
        &&& self.phase is Late ==> self.passes < MAX_DRAIN_PASSES
    }

    /// With nothing collected, and a change waited for.
    pub open spec fn idle() -> DrainView {
        DrainView { phase: DrainPhase::Idle, batch: Seq::empty(), passes: 0 }
    }

    /// The collector after an event, and the batch to apply, if there is one.
    pub open spec fn next(self, event: DrainEventView) -> (DrainView, Option<Seq<PathView>>) {
        match self.phase {
            DrainPhase::Idle => match event {
                DrainEventView::Changed(path) => (
                    DrainView { phase: DrainPhase::Gathering, batch: seq![path], passes: 0 },
                    None,
                ),
                DrainEventView::Nothing => (self, None),
                DrainEventView::Closed => (DrainView { phase: DrainPhase::Closed, ..self }, None),
            },
            DrainPhase::Gathering => match event {
                DrainEventView::Changed(path) => (
                    DrainView { batch: self.batch.push(path), ..self },
                    None,
                ),
                _ => (
                    DrainView { phase: DrainPhase::Late, batch: Seq::empty(), passes: 0 },
                    Some(self.batch),
                ),
            },
            DrainPhase::Late => match event {
                DrainEventView::Changed(path) => (
                    DrainView { batch: self.batch.push(path), ..self },
                    None,
                ),
                _ => if self.batch.len() == 0 {
                    (DrainView::idle(), None)
                } else if self.passes + 1 < MAX_DRAIN_PASSES {
                    (
                        DrainView {
                            phase: DrainPhase::Late,
                            batch: Seq::empty(),
                            passes: self.passes + 1,
                        },
                        Some(self.batch),
                    )
                } else {
                    (DrainView::idle(), Some(self.batch))
                },
            },
            DrainPhase::Closed => (self, None),
        }
    }
}

impl Drain {
    /// With nothing collected, and a change waited for.
    pub fn new() -> (r: Drain)
        ensures
            r@ == DrainView::idle(),
    {
        let r = Drain { phase: DrainPhase::Idle, batch: Vec::new(), passes: 0 };
        assert(r@.batch =~= Seq::<PathView>::empty());
        r
    }

    /// What the collector waits for.
    pub fn phase(&self) -> (r: DrainPhase)
        ensures
            r == self@.phase,
    {
        self.phase
    }

    /// Takes up an event, and gives the batch to apply, if there is one.
    pub fn step(&mut self, event: DrainEvent) -> (r: Option<Vec<RepoPath>>)
        requires
            old(self)@.wf(),
        ensures
            final(self)@.wf(),
            final(self)@ == old(self)@.next(event@).0,
            match r {
                Some(batch) => old(self)@.next(event@).1 == Some(path_views(batch@)),
                None => old(self)@.next(event@).1 is None,
            },
    {
        let ghost before = self@;
        match event {
            DrainEvent::Changed(path) => {
                match self.phase {
                    DrainPhase::Closed => {},
                    DrainPhase::Idle => {
                        self.phase = DrainPhase::Gathering;
                        self.passes = 0;
                        self.batch.push(path);
                        assert(self@.batch =~= seq![path@]);
                    },
                    _ => {
                        self.batch.push(path);
                        assert(self@.batch =~= before.batch.push(path@));
                    },
                }
                None
            },
            other => {
                match self.phase {
                    DrainPhase::Idle => {
                        if let DrainEvent::Closed = other {
                            self.phase = DrainPhase::Closed;
                        }
                        None
                    },
                    DrainPhase::Closed => None,
                    DrainPhase::Gathering => {
                        let mut batch: Vec<RepoPath> = Vec::new();
                        std::mem::swap(&mut batch, &mut self.batch);
                        self.phase = DrainPhase::Late;
                        self.passes = 0;
                        assert(self@.batch =~= Seq::<PathView>::empty());
                        Some(batch)
                    },
                    DrainPhase::Late => {
                        if self.batch.len() == 0 {
                            self.phase = DrainPhase::Idle;
                            self.passes = 0;
                            assert(self@ =~= DrainView::idle());
                            return None;
                        }
                        let mut batch: Vec<RepoPath> = Vec::new();
                        std::mem::swap(&mut batch, &mut self.batch);
                        if self.passes + 1 < MAX_DRAIN_PASSES {
                            self.passes = self.passes + 1;
                        } else {
                            self.phase = DrainPhase::Idle;
                            self.passes = 0;
                        }
                        assert(self@.batch =~= Seq::<PathView>::empty());
                        Some(batch)
                    },
                }
            },
        }
    }
}

/// The collector after a sequence of events.
pub open spec fn drained(drain: DrainView, events: Seq<DrainEventView>) -> DrainView
    decreases events.len(),
{
    if events.len() == 0 {
        drain
    } else {
        drained(drain, events.drop_last()).next(events.last()).0
    }
}

/// The changes of the batches that a sequence of events makes the collector hand out, in the
/// order in which they are applied.
pub open spec fn handed_out(drain: DrainView, events: Seq<DrainEventView>) -> Seq<PathView>
    decreases events.len(),
{
    if events.len() == 0 {
        Seq::empty()
    } else {
        let before = events.drop_last();
        match drained(drain, before).next(events.last()).1 {
            Some(batch) => handed_out(drain, before) + batch,
            None => handed_out(drain, before),
        }
    }
}

/// The changes in a sequence of events.
pub open spec fn changes(events: Seq<DrainEventView>) -> Seq<PathView>
    decreases events.len(),
{
    if events.len() == 0 {
        Seq::empty()
    } else {
        match events.last() {
            DrainEventView::Changed(path) => changes(events.drop_last()).push(path),
            _ => changes(events.drop_last()),
        }
    }
}

/// Whether nothing changes once the collector has been told that nothing more will.
pub open spec fn ends_when_closed(drain: DrainView, events: Seq<DrainEventView>) -> bool {
    forall|i: int|
        0 <= i < events.len() && drained(drain, events.take(i)).phase is Closed ==> !(
        #[trigger] events[i] is Changed)
}

/// No change is lost, made up or moved: what has been handed out, with what is still collected
/// behind it, is what was collected at first with all that changed since behind it.
pub proof fn law_no_change_is_lost(drain: DrainView, events: Seq<DrainEventView>)
    requires
        drain.wf(),
        ends_when_closed(drain, events),
    ensures
        drained(drain, events).wf(),
        handed_out(drain, events) + drained(drain, events).batch == drain.batch + changes(events),
    decreases events.len(),
{
    if events.len() == 0 {
        assert(handed_out(drain, events) + drained(drain, events).batch =~= drain.batch + changes(
            events,
        ));
    } else {
        let before = events.drop_last();
        assert forall|i: int|
            0 <= i < before.len() && drained(drain, before.take(i)).phase is Closed implies !(
        #[trigger] before[i] is Changed) by {
            assert(before.take(i) =~= events.take(i));
            assert(before[i] == events[i]);
        }
        law_no_change_is_lost(drain, before);
        let last = events.len() - 1;
        assert(events.take(last) =~= before);
        assert(events[last] == events.last());
        let state = drained(drain, before);
        assert(state.phase is Closed ==> !(events.last() is Changed));
        let so_far = handed_out(drain, before);
        match events.last() {
            DrainEventView::Changed(path) => {
                assert(so_far + state.batch.push(path) =~= (so_far + state.batch).push(path));
                assert((drain.batch + changes(before)).push(path) =~= drain.batch + changes(
                    events,
                ));
                assert(state.phase is Idle ==> state.batch.push(path) =~= seq![path]);
            },
            _ => {
                assert((so_far + state.batch) + Seq::<PathView>::empty() =~= so_far + state.batch);
                assert(state.batch.len() == 0 ==> state.batch =~= Seq::<PathView>::empty());
            },
        }
        assert(handed_out(drain, events) + drained(drain, events).batch =~= drain.batch + changes(
            events,
        ));
    }
}

/// How many batches a sequence of events makes the collector hand out.
pub open spec fn batches(drain: DrainView, events: Seq<DrainEventView>) -> nat
    decreases events.len(),
{
    if events.len() == 0 {
        0
    } else {
        let before = events.drop_last();
        batches(drain, before) + (if drained(drain, before).next(events.last()).1 is Some {
            1nat
        } else {
            0nat
        })
    }
}

/// Whether a change is waited for after none of the first events, the last one aside.
pub open spec fn stays_busy(events: Seq<DrainEventView>) -> bool {
    forall|i: int|
        0 < i < events.len() ==> !((#[trigger] drained(
            DrainView::idle(),
            events.take(i),
        )).phase is Idle)
}

/// Before a change is waited for again, at most one batch and `MAX_DRAIN_PASSES` late ones are
/// handed out, however many changes come in.
pub proof fn law_drain_passes_are_bounded(events: Seq<DrainEventView>)
    requires
        stays_busy(events),
    ensures
        batches(DrainView::idle(), events) <= MAX_DRAIN_PASSES + 1,
{
    lemma_batches(events);
}

proof fn lemma_batches(events: Seq<DrainEventView>)
    requires
        stays_busy(events),
    ensures
        ({
            let state = drained(DrainView::idle(), events);
            let n = batches(DrainView::idle(), events);
            &&& state.wf()
            &&& state.phase is Late ==> n == state.passes + 1
            &&& state.phase is Gathering || state.phase is Closed || events.len() == 0 ==> n == 0
            &&& n <= MAX_DRAIN_PASSES + 1
        }),
    decreases events.len(),
{
    if events.len() > 0 {
        let before = events.drop_last();
        assert forall|i: int| 0 < i < before.len() implies !((#[trigger] drained(
            DrainView::idle(),
            before.take(i),
        )).phase is Idle) by {
            assert(before.take(i) =~= events.take(i));
        }
        lemma_batches(before);
        assert(events.take(events.len() - 1) =~= before);
        assert(before.len() > 0 ==> !(drained(DrainView::idle(), before).phase is Idle));
    }
}

/// Every batch that is handed out holds a change.
pub proof fn law_batches_hold_changes(drain: DrainView, event: DrainEventView)
    requires
        drain.wf(),
    ensures
        drain.next(event).1 matches Some(batch) ==> batch.len() > 0,
{
}

} // verus!
