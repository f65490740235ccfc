//! The change watcher: which file-system events concern journal files, how a
//! burst of them is merged into one request per file, and what the commands
//! to the watcher do.
//!
//! Events are gathered in a buffer that holds no path twice. The buffer is
//! emptied to the workers when it holds [`MAX_BUFFER_SIZE`] paths or when
//! [`FLUSH_INTERVAL_MS`] have passed since it was last emptied, whichever
//! comes first.

use crate::scanner::{has_md_extension, is_markdown};
use crate::store::{lemma_name_index, name_index, text_of, texts_of};
use crate::series::holds_text;
use vstd::prelude::*;

verus! {

/// The number of paths at which the buffer is emptied.
pub const MAX_BUFFER_SIZE: usize = 20;

/// The time after which the buffer is emptied, in milliseconds.
pub const FLUSH_INTERVAL_MS: u64 = 1000;

/// A command to the watcher.
#[derive(Debug)]
pub enum WatchCommand {
    Watch(String),
    Unwatch(String),
    Stop,
}

/// What kind of change an event reports.
#[derive(Clone, Copy, Debug, PartialEq, Eq, Structural)]
pub enum EventKind {
    Create,
    Modify,
    Other,
}

/// One path of an event, with what was seen of the file at it.
#[derive(Debug)]
pub struct ChangedPath {
    /// The path, where it is text.
    pub path: Option<String>,
    /// Whether a regular file is at the path.
    pub is_file: bool,
    /// The extension of the path, where it has one that is text.
    pub extension: Option<String>,
}

/// What a [`ChangedPath`] holds.
pub struct ChangedPathView {
    pub path: Option<Seq<char>>,
    pub is_file: bool,
    pub extension: Option<Seq<char>>,
}

impl View for ChangedPath {
    type V = ChangedPathView;

    open spec fn view(&self) -> ChangedPathView {
        ChangedPathView { path: text_of(self.path), is_file: self.is_file, extension: text_of(self.extension) }
    }
}

/// The views of the paths of `v`.
pub open spec fn changes_of(v: Seq<ChangedPath>) -> Seq<ChangedPathView> {
    Seq::new(v.len(), |i: int| v[i]@)
}

/// Whether an event of the kind `kind` is looked at: one that creates or
/// modifies.
pub open spec fn is_relevant(kind: EventKind) -> bool {
    kind is Create || kind is Modify
}

/// Whether the changed path `p` is a Markdown file with a path that is text.
pub open spec fn is_markdown_file(p: ChangedPathView) -> bool {
    p.is_file && is_markdown(p.extension) && p.path is Some
}

/// `buffer` with `path` in it: at the end, unless it is there already.
pub open spec fn added(buffer: Seq<Seq<char>>, path: Seq<char>) -> Seq<Seq<char>> {
    if buffer.contains(path) {
        buffer
    } else {
        buffer.push(path)
    }
}

/// `buffer` after the paths of one event were gathered into it.
pub open spec fn absorbed(buffer: Seq<Seq<char>>, paths: Seq<ChangedPathView>) -> Seq<Seq<char>>
    decreases paths.len(),
{
    if paths.len() == 0 {
        buffer
    } else if is_markdown_file(paths.last()) {
        added(absorbed(buffer, paths.drop_last()), paths.last().path->0)
    } else {
        absorbed(buffer, paths.drop_last())
    }
}

/// Whether a buffer of `len` paths that was last emptied `since_flush_ms`
/// milliseconds ago is to be emptied.
pub open spec fn flush_due(len: nat, since_flush_ms: u64) -> bool {
    len > 0 && (since_flush_ms >= FLUSH_INTERVAL_MS || len >= MAX_BUFFER_SIZE)
}

/// `buffer` after `n` events that each report the changed path `p`.
pub open spec fn absorbed_times(buffer: Seq<Seq<char>>, p: ChangedPathView, n: nat) -> Seq<Seq<char>>
    decreases n,
{
    if n == 0 {
        buffer
    } else {
        absorbed(absorbed_times(buffer, p, (n - 1) as nat), seq![p])
    }
}

/// Gathering the paths of an event keeps the buffer free of duplicates.
pub proof fn lemma_absorbed_distinct(buffer: Seq<Seq<char>>, paths: Seq<ChangedPathView>)
    requires
        buffer.no_duplicates(),
    ensures
        absorbed(buffer, paths).no_duplicates(),
    decreases paths.len(),
{
    if paths.len() > 0 {
        lemma_absorbed_distinct(buffer, paths.drop_last());
    }
}

/// However many events report one Markdown file, the buffer holds its path once.
proof fn lemma_absorbed_times(buffer: Seq<Seq<char>>, p: ChangedPathView, n: nat)
    requires
        is_markdown_file(p),
        n >= 1,
    ensures
        absorbed_times(buffer, p, n) == added(buffer, p.path->0),
    decreases n,
{
    let one = seq![p];
    let path = p.path->0;
    assert(one.drop_last() =~= Seq::<ChangedPathView>::empty());
    assert(one.last() == p);
    let prev = absorbed_times(buffer, p, (n - 1) as nat);
    assert(absorbed(prev, one.drop_last()) == prev);
    assert(absorbed(prev, one) == added(prev, path));
    if n > 1 {
        lemma_absorbed_times(buffer, p, (n - 1) as nat);
        let b = added(buffer, path);
        if !buffer.contains(path) {
            assert(b[b.len() - 1] == path);
        }
        assert(b.contains(path));
    }
}

/// Coalescing: however many events report one Markdown file, the buffer holds
/// its path once. From an empty buffer it then holds that path and nothing
/// else, so the flush that follows submits it exactly once.
pub proof fn lemma_coalescing(buffer: Seq<Seq<char>>, p: ChangedPathView, n: nat)
    requires
        is_markdown_file(p),
        n >= 1,
    ensures
        absorbed_times(buffer, p, n) == added(buffer, p.path->0),
        absorbed_times(Seq::empty(), p, n) == seq![p.path->0],
{
    lemma_absorbed_times(buffer, p, n);
    lemma_absorbed_times(Seq::empty(), p, n);
    let none = Seq::<Seq<char>>::empty();
    assert(!none.contains(p.path->0));
    assert(none.push(p.path->0) =~= seq![p.path->0]);
}

/// The buffer of the paths that wait for the workers.
pub struct EventBuffer {
    paths: Vec<String>,
}

impl View for EventBuffer {
    type V = Seq<Seq<char>>;

    closed spec fn view(&self) -> Seq<Seq<char>> {
        texts_of(self.paths@)
    }
}

impl EventBuffer {
    /// An empty buffer.
    pub fn new() -> (r: EventBuffer)
        ensures
            r@ == Seq::<Seq<char>>::empty(),
    {
        let r = EventBuffer { paths: Vec::new() };
        assert(r@ =~= Seq::<Seq<char>>::empty());
        r
    }

    /// The number of paths in the buffer.
    pub fn len(&self) -> (r: usize)
        ensures
            r == self@.len(),
    {
        self.paths.len()
    }

    /// Whether the buffer is empty.
    pub fn is_empty(&self) -> (r: bool)
        ensures
            r == (self@.len() == 0),
    {
        self.paths.len() == 0
    }

    /// Puts `path` into the buffer, unless it is there already. Says whether
    /// it was put there.
    pub fn insert(&mut self, path: &str) -> (r: bool)
        ensures
            final(self)@ == added(old(self)@, path@),
            r == !old(self)@.contains(path@),
    {
        let owned = path.to_owned();
        if holds_text(&self.paths, &owned) {
            false
        } else {
            let ghost before = texts_of(self.paths@);
            self.paths.push(owned);
            assert(texts_of(self.paths@) =~= before.push(path@));
            true
        }
    }

    /// Takes every path out of the buffer, in the order in which they came.
    pub fn drain(&mut self) -> (r: Vec<String>)
        ensures
            texts_of(r@) == old(self)@,
            final(self)@ == Seq::<Seq<char>>::empty(),
    {
        let mut out: Vec<String> = Vec::new();
        std::mem::swap(&mut out, &mut self.paths);
        assert(texts_of(self.paths@) =~= Seq::<Seq<char>>::empty());
        out
    }

    /// Gathers the Markdown files among the paths of one event into the buffer.
    pub fn absorb(&mut self, paths: &Vec<ChangedPath>)
        ensures
            final(self)@ == absorbed(old(self)@, changes_of(paths@)),
    {
        let ghost all = changes_of(paths@);
        let ghost start = self@;
        let mut i: usize = 0;
        while i < paths.len()
            invariant
                i <= paths.len(),
                all == changes_of(paths@),
                self@ == absorbed(start, all.take(i as int)),
            decreases paths.len() - i,
        {
            let p = &paths[i];
            proof {
                let next = all.take(i as int + 1);
                assert(next.drop_last() =~= all.take(i as int));
                assert(next.last() == p@);
            }
            if p.is_file && has_md_extension(&p.extension) {
                match &p.path {
                    Some(text) => {
                        self.insert(text.as_str());
                    },
                    None => {},
                }
            }
            i += 1;
        }
        assert(all.take(all.len() as int) =~= all);
    }

    /// Takes in one event that came `since_flush_ms` milliseconds after the
    /// buffer was last emptied. An event that neither creates nor modifies
    /// changes nothing. Else the Markdown files among its paths are gathered
    /// into the buffer; where the buffer is then due, every path is taken out
    /// of it and handed back for the workers, and else nothing is handed back.
    pub fn on_event(&mut self, kind: EventKind, paths: &Vec<ChangedPath>, since_flush_ms: u64) -> (r: Vec<String>)
        requires
            old(self)@.no_duplicates(),
        ensures
            final(self)@.no_duplicates(),
            texts_of(r@).no_duplicates(),
            !is_relevant(kind) ==> final(self)@ == old(self)@ && r@.len() == 0,
            is_relevant(kind) ==> {
                let gathered = absorbed(old(self)@, changes_of(paths@));
                if flush_due(gathered.len(), since_flush_ms) {
                    texts_of(r@) == gathered && final(self)@.len() == 0
                } else {
                    r@.len() == 0 && final(self)@ == gathered
                }
            },
    {
        match kind {
            EventKind::Create | EventKind::Modify => {},
            EventKind::Other => {
                let none: Vec<String> = Vec::new();
                assert(texts_of(none@) =~= Seq::<Seq<char>>::empty());
                return none;
            },
        }
        proof {
            lemma_absorbed_distinct(self@, changes_of(paths@));
        }
        self.absorb(paths);
        let due: bool = since_flush_ms >= FLUSH_INTERVAL_MS || self.len() >= MAX_BUFFER_SIZE;
        if due && !self.is_empty() {
            self.drain()
        } else {
            let none: Vec<String> = Vec::new();
            assert(texts_of(none@) =~= Seq::<Seq<char>>::empty());
            none
        }
    }

    /// A look at the clock `since_flush_ms` milliseconds after the buffer was
    /// last emptied, with no event at hand: where the buffer is due, every
    /// path is taken out of it and handed back for the workers, and else
    /// nothing is handed back.
    pub fn on_tick(&mut self, since_flush_ms: u64) -> (r: Vec<String>)
        requires
            old(self)@.no_duplicates(),
        ensures
            final(self)@.no_duplicates(),
            texts_of(r@).no_duplicates(),
            if flush_due(old(self)@.len(), since_flush_ms) {
                texts_of(r@) == old(self)@ && final(self)@.len() == 0
            } else {
                r@.len() == 0 && final(self)@ == old(self)@
            },
    {
        let due: bool = since_flush_ms >= FLUSH_INTERVAL_MS || self.len() >= MAX_BUFFER_SIZE;
        if due && !self.is_empty() {
            self.drain()
        } else {
            let none: Vec<String> = Vec::new();
            assert(texts_of(none@) =~= Seq::<Seq<char>>::empty());
            none
        }
    }

    /// Takes out what is left in the buffer when the events end.
    pub fn finish(&mut self) -> (r: Vec<String>)
        ensures
            texts_of(r@) == old(self)@,
            final(self)@.len() == 0,
    {
        self.drain()
    }
}

/// Where the watcher stands in its life.
#[derive(Clone, Copy, Debug, PartialEq, Eq, Structural)]
pub enum Lifecycle {
    Created,
    Running,
    Stopped,
}

/// What the watcher is to do on a command.
#[derive(Debug)]
pub enum ControlAction {
    /// Begin to watch the directory.
    Watch(String),
    /// Cease to watch the directory.
    Unwatch(String),
    /// End the handling of commands.
    Shutdown,
    /// Nothing: the watcher has stopped.
    Ignore,
}

/// What a [`ControlAction`] holds.
pub enum ControlActionView {
    Watch(Seq<char>),
    Unwatch(Seq<char>),
    Shutdown,
    Ignore,
}

impl View for ControlAction {
    type V = ControlActionView;

    open spec fn view(&self) -> ControlActionView {
        match self {
            ControlAction::Watch(p) => ControlActionView::Watch(p@),
            ControlAction::Unwatch(p) => ControlActionView::Unwatch(p@),
            ControlAction::Shutdown => ControlActionView::Shutdown,
            ControlAction::Ignore => ControlActionView::Ignore,
        }
    }
}

/// What a [`WatchCommand`] holds.
pub enum WatchCommandView {
    Watch(Seq<char>),
    Unwatch(Seq<char>),
    Stop,
}

impl View for WatchCommand {
    type V = WatchCommandView;

    open spec fn view(&self) -> WatchCommandView {
        match self {
            WatchCommand::Watch(p) => WatchCommandView::Watch(p@),
            WatchCommand::Unwatch(p) => WatchCommandView::Unwatch(p@),
            WatchCommand::Stop => WatchCommandView::Stop,
        }
    }
}

/// The state of the watcher: where it stands in its life, and the
/// directories that it watches.
pub struct ControlView {
    pub state: Lifecycle,
    pub watched: Seq<Seq<char>>,
}

/// `watched` without `path`.
pub open spec fn unwatched(watched: Seq<Seq<char>>, path: Seq<char>) -> Seq<Seq<char>> {
    let i = name_index(watched, path);
    if i < watched.len() {
        watched.remove(i)
    } else {
        watched
    }
}

impl ControlView {
    /// The state after the command `cmd`. A watcher that has stopped stays as
    /// it is.
    pub open spec fn after(self, cmd: WatchCommandView) -> ControlView {
        if self.state is Stopped {
            self
        } else {
            match cmd {
                WatchCommandView::Watch(p) => ControlView { state: Lifecycle::Running, watched: added(self.watched, p) },
                WatchCommandView::Unwatch(p) => ControlView {
                    state: Lifecycle::Running,
                    watched: unwatched(self.watched, p),
                },
                WatchCommandView::Stop => ControlView { state: Lifecycle::Stopped, watched: Seq::empty() },
            }
        }
    }

    /// What the watcher is to do on the command `cmd`.
    pub open spec fn action(self, cmd: WatchCommandView) -> ControlActionView {
        if self.state is Stopped {
            ControlActionView::Ignore
        } else {
            match cmd {
                WatchCommandView::Watch(p) => ControlActionView::Watch(p),
                WatchCommandView::Unwatch(p) => ControlActionView::Unwatch(p),
                WatchCommandView::Stop => ControlActionView::Shutdown,
            }
        }
    }
}

/// The handling of the commands to the watcher.
pub struct WatcherControl {
    state: Lifecycle,
    watched: Vec<String>,
}

impl View for WatcherControl {
    type V = ControlView;

    closed spec fn view(&self) -> ControlView {
        ControlView { state: self.state, watched: texts_of(self.watched@) }
    }
}

impl WatcherControl {
    /// A watcher that was made and does not run yet.
    pub fn new() -> (r: WatcherControl)
        ensures
            r@.state is Created,
            r@.watched.len() == 0,
    {
        WatcherControl { state: Lifecycle::Created, watched: Vec::new() }
    }

    /// Where the watcher stands in its life.
    pub fn state(&self) -> (r: Lifecycle)
        ensures
            r == self@.state,
    {
        self.state
    }

    /// The directories that the watcher watches.
    pub fn watched(&self) -> (r: &Vec<String>)
        ensures
            texts_of(r@) == self@.watched,
    {
        &self.watched
    }

    /// Takes one command: says what the watcher is to do, and keeps track of
    /// the directories that it watches. Once stopped, it ignores every command.
    pub fn handle(&mut self, cmd: WatchCommand) -> (r: ControlAction)
        ensures
            r@ == old(self)@.action(cmd@),
            final(self)@ == old(self)@.after(cmd@),
    {
        if let Lifecycle::Stopped = self.state {
            return ControlAction::Ignore;
        }
        let ghost before = texts_of(self.watched@);
        match cmd {
            WatchCommand::Watch(path) => {
                self.state = Lifecycle::Running;
                if !holds_text(&self.watched, &path) {
                    self.watched.push(path.clone());
                    assert(texts_of(self.watched@) =~= before.push(path@));
                }
                ControlAction::Watch(path)
            },
            WatchCommand::Unwatch(path) => {
                self.state = Lifecycle::Running;
                let mut i: usize = 0;
                while i < self.watched.len() && !(self.watched[i] == path)
                    invariant
                        i <= self.watched.len(),
                        texts_of(self.watched@) == before,
                        forall|j: int| 0 <= j < i ==> #[trigger] before[j] != path@,
                    decreases self.watched.len() - i,
                {
                    assert(before[i as int] == self.watched@[i as int]@);
                    i += 1;
                }
                proof {
                    if i < self.watched.len() {
                        assert(before[i as int] == self.watched@[i as int]@);
                    }
                    lemma_name_index(before, path@);
                    assert(name_index(before, path@) == i);
                }
                if i < self.watched.len() {
                    self.watched.remove(i);
                    assert(texts_of(self.watched@) =~= before.remove(i as int));
                }
                ControlAction::Unwatch(path)
            },
            WatchCommand::Stop => {
                self.state = Lifecycle::Stopped;
                self.watched = Vec::new();
                assert(texts_of(self.watched@) =~= Seq::<Seq<char>>::empty());
                ControlAction::Shutdown
            },
        }
    }
}

/// Starts the watcher: it runs, and watches the directory `dir` where one is
/// given.
pub fn start_watcher(dir: Option<String>) -> (r: WatcherControl)
    ensures
        r@.state is Running,
        r@.watched == match dir {
            Some(d) => seq![d@],
            None => Seq::<Seq<char>>::empty(),
        },
{
    let mut watched: Vec<String> = Vec::new();
    match dir {
        Some(d) => {
            watched.push(d);
        },
        None => {},
    }
    let r = WatcherControl { state: Lifecycle::Running, watched };
    assert(r@.watched =~= match dir {
        Some(d) => seq![d@],
        None => Seq::<Seq<char>>::empty(),
    });
    r
}

} // verus!
