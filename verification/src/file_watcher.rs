//! The file watcher's decisions: which raw events count, how bursts on one
//! path are folded into one pending event, when a pending event is due, and
//! what is then done to the index.

use vstd::prelude::*;
use crate::config::folders_without;
use crate::config::without;
use crate::extensions::has_recognized_extension;
use crate::extensions::is_indexable_path;
use crate::text::string_views;

verus! {

/// How long a path must have been quiet before its event is dispatched, in
/// milliseconds.
pub const DEBOUNCE_DELAY_MS: u64 = 500;

/// The longest pause between two sweeps of the pending events, in
/// milliseconds.
pub const SWEEP_INTERVAL_MS: u64 = 100;

/// What happened to a file.
#[derive(Debug, Clone, Copy, PartialEq, Eq, Structural)]
pub enum FileEventType {
    Created,
    Modified,
    Deleted,
}

/// The kind of a raw event, as the operating system reports it.
#[derive(Debug, Clone, Copy, PartialEq, Eq, Structural)]
pub enum RawEventKind {
    Create,
    Modify,
    Remove,
    Other,
}

/// What is done to the index when a pending event is dispatched.
#[derive(Debug, Clone, Copy, PartialEq, Eq, Structural)]
pub enum Dispatch {
    /// Index the file anew.
    Upsert,
    /// Remove the document of the path.
    Delete,
    /// Leave the index as it is.
    Skip,
}

/// The latest event seen on a path, and when.
#[derive(Debug)]
pub struct PendingEvent {
    pub path: String,
    pub event_type: FileEventType,
    /// Milliseconds on a clock that never runs backwards.
    pub timestamp: u64,
}

/// A pending event as mathematical values.
pub struct PendingView {
    pub path: Seq<char>,
    pub event_type: FileEventType,
    pub timestamp: u64,
}

impl View for PendingEvent {
    type V = PendingView;

    open spec fn view(&self) -> PendingView {
        PendingView { path: self.path@, event_type: self.event_type, timestamp: self.timestamp }
    }
}

/// The views of a list of pending events.
pub open spec fn pending_views(events: Seq<PendingEvent>) -> Seq<PendingView> {
    events.map_values(|e: PendingEvent| e@)
}

/// No two of the events are on the same path.
pub open spec fn distinct_paths(events: Seq<PendingView>) -> bool {
    forall|i: int, j: int|
        0 <= i < j < events.len() ==> (#[trigger] events[i]).path != (#[trigger] events[j]).path
}

/// What holds of every event that is not on `path`.
pub open spec fn on_other_path(path: Seq<char>) -> spec_fn(PendingView) -> bool {
    |e: PendingView| e.path != path
}

/// The time an event has been pending at `now`; never negative.
pub open spec fn age(e: PendingView, now: u64) -> int {
    if now >= e.timestamp {
        now - e.timestamp
    } else {
        0
    }
}

/// What holds of every event that has been quiet for the debounce delay.
pub open spec fn is_due(now: u64) -> spec_fn(PendingView) -> bool {
    |e: PendingView| age(e, now) >= DEBOUNCE_DELAY_MS
}

/// What holds of every event that has not yet been quiet for the debounce delay.
pub open spec fn is_fresh(now: u64) -> spec_fn(PendingView) -> bool {
    |e: PendingView| age(e, now) < DEBOUNCE_DELAY_MS
}

/// The pending events after one more event: the new one wins over what
/// was pending on its path.
pub open spec fn recorded(
    events: Seq<PendingView>,
    path: Seq<char>,
    event_type: FileEventType,
    now: u64,
) -> Seq<PendingView> {
    events.filter(on_other_path(path)).push(
        PendingView { path, event_type, timestamp: now },
    )
}

/// The event type that a raw event stands for; `None` for a raw event that
/// says nothing of a file's contents or existence.
pub open spec fn event_type_of(kind: RawEventKind) -> Option<FileEventType> {
    match kind {
        RawEventKind::Create => Some(FileEventType::Created),
        RawEventKind::Modify => Some(FileEventType::Modified),
        RawEventKind::Remove => Some(FileEventType::Deleted),
        RawEventKind::Other => None,
    }
}

/// The pending events after a raw event of type `event_type` on `paths`:
/// each path with a recognized extension is recorded, in order.
pub open spec fn recorded_all(
    events: Seq<PendingView>,
    paths: Seq<Seq<char>>,
    event_type: FileEventType,
    now: u64,
) -> Seq<PendingView>
    decreases paths.len(),
{
    if paths.len() == 0 {
        events
    } else {
        let before = recorded_all(events, paths.drop_last(), event_type, now);
        if has_recognized_extension(paths.last()) {
            recorded(before, paths.last(), event_type, now)
        } else {
            before
        }
    }
}

/// What to do with a path whose event is dispatched, given what is found
/// at the path at that moment.
pub open spec fn dispatch_of(event_type: FileEventType, exists: bool, is_file: bool) -> Dispatch {
    match event_type {
        FileEventType::Deleted => Dispatch::Delete,
        _ => if !exists {
            Dispatch::Delete
        } else if is_file {
            Dispatch::Upsert
        } else {
            Dispatch::Skip
        },
    }
}

/// Filtering keeps paths distinct.
pub proof fn lemma_filter_keeps_distinct(events: Seq<PendingView>, pred: spec_fn(PendingView) -> bool)
    requires
        distinct_paths(events),
    ensures
        distinct_paths(events.filter(pred)),
    decreases events.len(),
{
    reveal(Seq::filter);
    if events.len() > 0 {
        let rest = events.drop_last();
        assert forall|i: int, j: int| 0 <= i < j < rest.len() implies (#[trigger] rest[i]).path != (
        #[trigger] rest[j]).path by {
            assert(rest[i] == events[i] && rest[j] == events[j]);
        }
        lemma_filter_keeps_distinct(rest, pred);
        let kept = rest.filter(pred);
        let out = events.filter(pred);
        assert forall|i: int, j: int| 0 <= i < j < out.len() implies (#[trigger] out[i]).path != (
        #[trigger] out[j]).path by {
            if j < kept.len() {
                assert(out[i] == kept[i] && out[j] == kept[j]);
            } else {
                assert(out[i] == kept[i]);
                assert(kept.contains(kept[i]));
                rest.lemma_filter_contains_rev(pred, kept[i]);
                let a = choose|a: int| 0 <= a < rest.len() && rest[a] == kept[i];
                assert(events[a] == kept[i]);
                assert(out[j] == events[events.len() - 1]);
            }
        }
    }
}

/// Recording an event keeps paths distinct.
pub proof fn lemma_recorded_distinct(
    events: Seq<PendingView>,
    path: Seq<char>,
    event_type: FileEventType,
    now: u64,
)
    requires
        distinct_paths(events),
    ensures
        distinct_paths(recorded(events, path, event_type, now)),
{
    let kept = events.filter(on_other_path(path));
    lemma_filter_keeps_distinct(events, on_other_path(path));
    let out = recorded(events, path, event_type, now);
    assert forall|i: int, j: int| 0 <= i < j < out.len() implies (#[trigger] out[i]).path != (
    #[trigger] out[j]).path by {
        assert(out[i] == kept[i]);
        if j < kept.len() {
            assert(out[j] == kept[j]);
        } else {
            events.lemma_filter_pred(on_other_path(path), i);
        }
    }
}

/// The pending events of the watcher, at most one for each path. They are
/// kept in the order in which their paths were last recorded, which is the
/// order in which a sweep hands them out.
pub struct Debouncer {
    events: Vec<PendingEvent>,
}

impl View for Debouncer {
    type V = Seq<PendingView>;

    closed spec fn view(&self) -> Seq<PendingView> {
        pending_views(self.events@)
    }
}

impl Debouncer {
    /// No path is pending twice.
    pub open spec fn wf(&self) -> bool {
        distinct_paths(self@)
    }

    /// A debouncer with nothing pending.
    pub fn new() -> (r: Self)
        ensures
            r@ == Seq::<PendingView>::empty(),
            r.wf(),
    {
        let r = Debouncer { events: Vec::new() };
        assert(r@ =~= Seq::<PendingView>::empty());
        r
    }

    /// How many paths are pending.
    pub fn len(&self) -> (r: usize)
        ensures
            r == self@.len(),
    {
        self.events.len()
    }

    /// Records an event on `path` seen at `now`. It replaces what was
    /// pending on that path, so the quiet time of the path starts anew.
    pub fn record(&mut self, path: String, event_type: FileEventType, now: u64)
        requires
            old(self).wf(),
        ensures
            final(self)@ == recorded(old(self)@, path@, event_type, now),
            final(self).wf(),
    {
        let ghost all = self@;
        let mut kept: Vec<PendingEvent> = Vec::new();
        let mut taken: Vec<PendingEvent> = Vec::new();
        std::mem::swap(&mut self.events, &mut taken);
        let mut i: usize = 0;
        proof {
            reveal(Seq::filter);
            assert(all.take(0) =~= Seq::<PendingView>::empty());
            assert(pending_views(kept@) =~= Seq::<PendingView>::empty());
        }
        while i < taken.len()
            invariant
                i <= taken.len(),
                all == pending_views(taken@),
                pending_views(kept@) == all.take(i as int).filter(on_other_path(path@)),
            decreases taken.len() - i,
        {
            proof {
                reveal(Seq::filter);
                assert(all.take(i + 1).drop_last() =~= all.take(i as int));
                assert(all.take(i + 1).last() == taken@[i as int]@);
            }
            if taken[i].path != path {
                let ghost before = pending_views(kept@);
                let copy = PendingEvent {
                    path: taken[i].path.clone(),
                    event_type: taken[i].event_type,
                    timestamp: taken[i].timestamp,
                };
                kept.push(copy);
                assert(pending_views(kept@) =~= before.push(taken@[i as int]@));
            }
            i = i + 1;
        }
        proof {
            assert(all.take(all.len() as int) =~= all);
            lemma_recorded_distinct(all, path@, event_type, now);
        }
        let ghost before = pending_views(kept@);
        kept.push(PendingEvent { path, event_type, timestamp: now });
        assert(pending_views(kept@) =~= before.push(
            PendingView { path: path@, event_type, timestamp: now },
        ));
        self.events = kept;
    }

    /// Takes out the events that have been quiet for the debounce delay at
    /// `now` and hands them over for dispatch, oldest record first. The
    /// others stay pending.
    pub fn sweep(&mut self, now: u64) -> (due: Vec<PendingEvent>)
        requires
            old(self).wf(),
        ensures
            pending_views(due@) == old(self)@.filter(is_due(now)),
            final(self)@ == old(self)@.filter(is_fresh(now)),
            final(self).wf(),
            distinct_paths(pending_views(due@)),
    {
        let ghost all = self@;
        let mut kept: Vec<PendingEvent> = Vec::new();
        let mut due: Vec<PendingEvent> = Vec::new();
        let mut taken: Vec<PendingEvent> = Vec::new();
        std::mem::swap(&mut self.events, &mut taken);
        let mut i: usize = 0;
        proof {
            reveal(Seq::filter);
            assert(all.take(0) =~= Seq::<PendingView>::empty());
            assert(pending_views(kept@) =~= Seq::<PendingView>::empty());
            assert(pending_views(due@) =~= Seq::<PendingView>::empty());
        }
        while i < taken.len()
            invariant
                i <= taken.len(),
                all == pending_views(taken@),
                pending_views(kept@) == all.take(i as int).filter(is_fresh(now)),
                pending_views(due@) == all.take(i as int).filter(is_due(now)),
            decreases taken.len() - i,
        {
            proof {
                reveal(Seq::filter);
                assert(all.take(i + 1).drop_last() =~= all.take(i as int));
                assert(all.take(i + 1).last() == taken@[i as int]@);
            }
            let copy = PendingEvent {
                path: taken[i].path.clone(),
                event_type: taken[i].event_type,
                timestamp: taken[i].timestamp,
            };
            let quiet: u64 = if now >= copy.timestamp {
                now - copy.timestamp
            } else {
                0
            };
            if quiet >= DEBOUNCE_DELAY_MS {
                let ghost before = pending_views(due@);
                due.push(copy);
                assert(pending_views(due@) =~= before.push(taken@[i as int]@));
            } else {
                let ghost before = pending_views(kept@);
                kept.push(copy);
                assert(pending_views(kept@) =~= before.push(taken@[i as int]@));
            }
            i = i + 1;
        }
        proof {
            assert(all.take(all.len() as int) =~= all);
            lemma_filter_keeps_distinct(all, is_fresh(now));
            lemma_filter_keeps_distinct(all, is_due(now));
        }
        self.events = kept;
        due
    }
}

/// The event type that a raw event stands for.
pub fn event_type_for(kind: RawEventKind) -> (r: Option<FileEventType>)
    ensures
        r == event_type_of(kind),
{
    match kind {
        RawEventKind::Create => Some(FileEventType::Created),
        RawEventKind::Modify => Some(FileEventType::Modified),
        RawEventKind::Remove => Some(FileEventType::Deleted),
        RawEventKind::Other => None,
    }
}

/// Takes a raw event into the pending events: each of its paths with a
/// recognized extension is recorded with the time `now`. A raw event of
/// another kind changes nothing.
pub fn handle_notify_event(
    pending: &mut Debouncer,
    kind: RawEventKind,
    paths: Vec<String>,
    now: u64,
)
    requires
        old(pending).wf(),
    ensures
        final(pending).wf(),
        final(pending)@ == (match event_type_of(kind) {
            Some(event_type) => recorded_all(old(pending)@, string_views(paths@), event_type, now),
            None => old(pending)@,
        }),
{
    let event_type = match event_type_for(kind) {
        Some(t) => t,
        None => {
            return ;
        },
    };
    let ghost all = string_views(paths@);
    let mut i: usize = 0;
    assert(all.take(0) =~= Seq::<Seq<char>>::empty());
    while i < paths.len()
        invariant
            i <= paths.len(),
            all == string_views(paths@),
            pending.wf(),
            pending@ == recorded_all(old(pending)@, all.take(i as int), event_type, now),
        decreases paths.len() - i,
    {
        proof {
            assert(all.take(i + 1).drop_last() =~= all.take(i as int));
            assert(all.take(i + 1).last() == paths@[i as int]@);
        }
        if is_indexable_path(paths[i].as_str()) {
            pending.record(paths[i].clone(), event_type, now);
        }
        i = i + 1;
    }
    assert(all.take(all.len() as int) =~= all);
}

/// Decides what is done to the index for a dispatched event, given whether
/// something exists at the path and whether it is a regular file.
pub fn process_file_event(event_type: FileEventType, exists: bool, is_file: bool) -> (r: Dispatch)
    ensures
        r == dispatch_of(event_type, exists, is_file),
{
    match event_type {
        FileEventType::Deleted => Dispatch::Delete,
        _ => if !exists {
            Dispatch::Delete
        } else if is_file {
            Dispatch::Upsert
        } else {
            Dispatch::Skip
        },
    }
}

/// The folders under watch. While no watcher exists (`active` is false)
/// none is listed.
#[derive(Debug)]
pub struct FileWatcherManager {
    pub active: bool,
    pub watched_folders: Vec<String>,
}

impl FileWatcherManager {
    /// A manager without a watcher.
    pub fn new() -> (r: Self)
        ensures
            !r.active,
            r.watched_folders@.len() == 0,
    {
        FileWatcherManager { active: false, watched_folders: Vec::new() }
    }

    /// Notes that a watcher was made for `folders`.
    pub fn start(&mut self, folders: Vec<String>)
        ensures
            final(self).active,
            final(self).watched_folders == folders,
    {
        self.active = true;
        self.watched_folders = folders;
    }

    /// Notes that the watcher is gone, and with it every watch.
    pub fn stop(&mut self)
        ensures
            !final(self).active,
            final(self).watched_folders@.len() == 0,
    {
        self.active = false;
        self.watched_folders = Vec::new();
    }

    /// Puts `folder` under watch if a watcher exists and the folder is a
    /// directory. The result says whether it did, and so whether a watch
    /// is to be set on the folder.
    pub fn add_folder(&mut self, folder: &str, is_dir: bool) -> (watch: bool)
        ensures
            watch == (old(self).active && is_dir),
            final(self).active == old(self).active,
            string_views(final(self).watched_folders@) == if watch {
                string_views(old(self).watched_folders@).push(folder@)
            } else {
                string_views(old(self).watched_folders@)
            },
    {
        if self.active && is_dir {
            self.watched_folders.push(folder.to_owned());
            assert(string_views(self.watched_folders@) =~= string_views(
                old(self).watched_folders@,
            ).push(folder@));
            true
        } else {
            false
        }
    }

    /// Takes `folder` from the folders under watch if a watcher exists. The
    /// result says whether one does, and so whether the watch on the folder
    /// is to be lifted.
    pub fn remove_folder(&mut self, folder: &str) -> (unwatch: bool)
        ensures
            unwatch == old(self).active,
            final(self).active == old(self).active,
            string_views(final(self).watched_folders@) == if unwatch {
                without(string_views(old(self).watched_folders@), folder@)
            } else {
                string_views(old(self).watched_folders@)
            },
    {
        if self.active {
            self.watched_folders = folders_without(&self.watched_folders, folder);
            true
        } else {
            false
        }
    }
}

/// The watcher of the process: whether it runs, and what it watches.
#[derive(Debug)]
pub struct WatcherState {
    pub running: bool,
    pub manager: FileWatcherManager,
}

impl WatcherState {
    /// A watcher that does not run.
    pub fn new() -> (r: Self)
        ensures
            !r.running,
            !r.manager.active,
            r.manager.watched_folders@.len() == 0,
    {
        WatcherState { running: false, manager: FileWatcherManager::new() }
    }
}

/// Starts the watcher on `folders` unless it runs already. The result says
/// whether it was started, and so whether watches are to be set.
pub fn start_watching(state: &mut WatcherState, folders: Vec<String>) -> (started: bool)
    ensures
        started == !old(state).running,
        final(state).running,
        started ==> final(state).manager.active && final(state).manager.watched_folders == folders,
        !started ==> final(state).manager == old(state).manager,
{
    if state.running {
        return false;
    }
    state.running = true;
    state.manager.start(folders);
    true
}

/// Stops the watcher and forgets what it watched.
pub fn stop_watching(state: &mut WatcherState)
    ensures
        !final(state).running,
        !final(state).manager.active,
        final(state).manager.watched_folders@.len() == 0,
{
    state.running = false;
    state.manager.stop();
}

/// Puts one more folder under watch while the watcher runs. The result
/// says whether a watch is to be set on the folder.
pub fn add_watch_folder(state: &mut WatcherState, folder: &str, is_dir: bool) -> (watch: bool)
    ensures
        watch == (old(state).running && old(state).manager.active && is_dir),
        final(state).running == old(state).running,
        final(state).manager.active == old(state).manager.active,
        string_views(final(state).manager.watched_folders@) == if watch {
            string_views(old(state).manager.watched_folders@).push(folder@)
        } else {
            string_views(old(state).manager.watched_folders@)
        },
{
    if !state.running {
        return false;
    }
    state.manager.add_folder(folder, is_dir)
}

/// Takes a folder from the folders under watch. The result says whether
/// the watch on the folder is to be lifted.
pub fn remove_watch_folder(state: &mut WatcherState, folder: &str) -> (unwatch: bool)
    ensures
        unwatch == old(state).manager.active,
        final(state).running == old(state).running,
        final(state).manager.active == old(state).manager.active,
        string_views(final(state).manager.watched_folders@) == if unwatch {
            without(string_views(old(state).manager.watched_folders@), folder@)
        } else {
            string_views(old(state).manager.watched_folders@)
        },
{
    state.manager.remove_folder(folder)
}

/// Whether the watcher runs.
pub fn is_running(state: &WatcherState) -> (r: bool)
    ensures
        r == state.running,
{
    state.running
}

} // verus!
