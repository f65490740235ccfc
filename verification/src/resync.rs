//! The resync coordinator: the steps of a full scan of the journal root, the
//! percentage that it reports after each file, and the throttle that keeps
//! only the latest percentage until the next tick.

use crate::store::{text_of, texts_of, MetricStore, StoreView};
use vstd::prelude::*;

verus! {

/// The time between two reports of progress, in milliseconds.
pub const PROGRESS_INTERVAL_MS: u64 = 500;

/// The percentage after the file at `index` of `total` was submitted: 100
/// times `index + 1` over `total`, rounded to the nearest whole number, halves
/// upwards.
pub open spec fn percent_done(index: int, total: int) -> int {
    (200 * (index + 1) + total) / (2 * total)
}

/// The percentage after the file at `index` of `total` was submitted.
pub fn progress_percent(index: usize, total: usize) -> (r: u32)
    requires
        index < total,
    ensures
        r == percent_done(index as int, total as int),
        r <= 100,
        index + 1 == total ==> r == 100,
{
    let done: u128 = 200 * (index as u128 + 1) + total as u128;
    let whole: u128 = 2 * total as u128;
    let q: u128 = done / whole;
    assert(q <= 100 && (index + 1 == total ==> q == 100)) by (nonlinear_arith)
        requires
            0 <= index < total,
            q == (200 * (index + 1) + total) / (2 * total),
    ;
    q as u32
}

/// The throttle of the progress reports: it keeps the latest percentage that
/// came since the last tick, and gives it up at the next tick.
pub struct ProgressThrottle {
    latest: Option<u32>,
}

impl View for ProgressThrottle {
    type V = Option<u32>;

    closed spec fn view(&self) -> Option<u32> {
        self.latest
    }
}

impl ProgressThrottle {
    /// A throttle that holds nothing.
    pub fn new() -> (r: ProgressThrottle)
        ensures
            r@ is None,
    {
        ProgressThrottle { latest: None }
    }

    /// Takes a percentage in, in place of the one held.
    pub fn record(&mut self, percent: u32)
        ensures
            final(self)@ == Some(percent),
    {
        self.latest = Some(percent);
    }

    /// A tick: hands out the percentage held, if there is one, and holds
    /// nothing after it.
    pub fn tick(&mut self) -> (r: Option<u32>)
        ensures
            r == old(self)@,
            final(self)@ is None,
    {
        let r = self.latest;
        self.latest = None;
        r
    }
}

/// What happened in a resync.
#[derive(Debug)]
pub enum ResyncEvent {
    /// The resync was asked for, with this many metrics tracked.
    Begin(usize),
    /// The scan of the journal root gave these paths.
    Scanned(Vec<String>),
    /// The scan of the journal root failed.
    ScanFailed,
    /// The path submitted last was taken by the workers, or was not.
    Sent(bool),
}

/// What the one who runs a resync is to do next.
#[derive(Debug)]
pub enum ResyncAction {
    /// Signal that the sync starts, and scan the journal root.
    StartAndScan,
    /// Hand the path to the workers.
    Submit(String),
    /// Forward the percentage to the reporter of progress.
    Report(u32),
    /// Close the channel to the reporter, which then signals that the sync is
    /// complete.
    Close,
}

/// Where a resync stands.
#[derive(Clone, Copy, Debug, PartialEq, Eq, Structural)]
pub enum ResyncPhase {
    /// Not begun.
    Idle,
    /// The scan is awaited.
    Scanning,
    /// The path at this index was submitted; the answer is awaited.
    Sending(usize),
    /// Over.
    Done,
}

/// What a [`ResyncEvent`] holds.
pub enum ResyncEventView {
    Begin(usize),
    Scanned(Seq<Seq<char>>),
    ScanFailed,
    Sent(bool),
}

/// What a [`ResyncAction`] holds.
pub enum ResyncActionView {
    StartAndScan,
    Submit(Seq<char>),
    Report(u32),
    Close,
}

impl View for ResyncEvent {
    type V = ResyncEventView;

    open spec fn view(&self) -> ResyncEventView {
        match self {
            ResyncEvent::Begin(n) => ResyncEventView::Begin(*n),
            ResyncEvent::Scanned(paths) => ResyncEventView::Scanned(texts_of(paths@)),
            ResyncEvent::ScanFailed => ResyncEventView::ScanFailed,
            ResyncEvent::Sent(ok) => ResyncEventView::Sent(*ok),
        }
    }
}

impl View for ResyncAction {
    type V = ResyncActionView;

    open spec fn view(&self) -> ResyncActionView {
        match self {
            ResyncAction::StartAndScan => ResyncActionView::StartAndScan,
            ResyncAction::Submit(p) => ResyncActionView::Submit(p@),
            ResyncAction::Report(n) => ResyncActionView::Report(*n),
            ResyncAction::Close => ResyncActionView::Close,
        }
    }
}

/// The views of the actions of `v`.
pub open spec fn actions_of(v: Seq<ResyncAction>) -> Seq<ResyncActionView> {
    Seq::new(v.len(), |i: int| v[i]@)
}

/// The state of a resync: where it stands, and the paths that the scan gave.
pub struct ResyncView {
    pub phase: ResyncPhase,
    pub paths: Seq<Seq<char>>,
}

impl ResyncView {
    /// Whether the state is one that a resync can be in.
    pub open spec fn valid(self) -> bool {
        self.phase matches ResyncPhase::Sending(i) ==> i < self.paths.len()
    }

    /// The state after `event`.
    pub open spec fn after(self, event: ResyncEventView) -> ResyncView {
        match (self.phase, event) {
            (ResyncPhase::Idle, ResyncEventView::Begin(n)) => if n == 0 {
                ResyncView { phase: ResyncPhase::Done, ..self }
            } else {
                ResyncView { phase: ResyncPhase::Scanning, ..self }
            },
            (ResyncPhase::Scanning, ResyncEventView::Scanned(paths)) => if paths.len() == 0 {
                ResyncView { phase: ResyncPhase::Done, paths }
            } else {
                ResyncView { phase: ResyncPhase::Sending(0), paths }
            },
            (ResyncPhase::Scanning, ResyncEventView::ScanFailed) => ResyncView { phase: ResyncPhase::Done, ..self },
            (ResyncPhase::Sending(i), ResyncEventView::Sent(_)) => if i + 1 < self.paths.len() {
                ResyncView { phase: ResyncPhase::Sending((i + 1) as usize), ..self }
            } else {
                ResyncView { phase: ResyncPhase::Done, ..self }
            },
            _ => self,
        }
    }

    /// What is to be done on `event`, in order.
    pub open spec fn actions(self, event: ResyncEventView) -> Seq<ResyncActionView> {
        match (self.phase, event) {
            (ResyncPhase::Idle, ResyncEventView::Begin(n)) => if n == 0 {
                Seq::empty()
            } else {
                seq![ResyncActionView::StartAndScan]
            },
            (ResyncPhase::Scanning, ResyncEventView::Scanned(paths)) => if paths.len() == 0 {
                seq![ResyncActionView::Close]
            } else {
                seq![ResyncActionView::Submit(paths[0])]
            },
            (ResyncPhase::Scanning, ResyncEventView::ScanFailed) => seq![ResyncActionView::Close],
            (ResyncPhase::Sending(i), ResyncEventView::Sent(ok)) => {
                let report = if ok {
                    seq![ResyncActionView::Report(percent_done(i as int, self.paths.len() as int) as u32)]
                } else {
                    Seq::empty()
                };
                if i + 1 < self.paths.len() {
                    report.push(ResyncActionView::Submit(self.paths[i + 1]))
                } else {
                    report.push(ResyncActionView::Close)
                }
            },
            _ => Seq::empty(),
        }
    }
}

/// One resync.
pub struct Resync {
    phase: ResyncPhase,
    paths: Vec<String>,
}

impl View for Resync {
    type V = ResyncView;

    closed spec fn view(&self) -> ResyncView {
        ResyncView { phase: self.phase, paths: texts_of(self.paths@) }
    }
}

impl Resync {
    /// A resync that has not begun.
    pub fn new() -> (r: Resync)
        ensures
            r@.phase is Idle,
            r@.valid(),
    {
        Resync { phase: ResyncPhase::Idle, paths: Vec::new() }
    }

    /// Where the resync stands.
    pub fn phase(&self) -> (r: ResyncPhase)
        ensures
            r == self@.phase,
    {
        self.phase
    }

    /// Takes one event and says what is to be done next. With no metric
    /// tracked a resync does nothing at all. Else the sync starts and the
    /// journal root is scanned; the paths are submitted one at a time, in the
    /// order of the scan; after each path that the workers took, the
    /// percentage is reported; and after the last path, or a failed scan, the
    /// channel to the reporter is closed. An event that does not fit the
    /// state changes nothing.
    pub fn step(&mut self, event: ResyncEvent) -> (r: Vec<ResyncAction>)
        requires
            old(self)@.valid(),
        ensures
            final(self)@.valid(),
            final(self)@ == old(self)@.after(event@),
            actions_of(r@) == old(self)@.actions(event@),
    {
        let mut out: Vec<ResyncAction> = Vec::new();
        let ghost before = self@;
        match (self.phase, event) {
            (ResyncPhase::Idle, ResyncEvent::Begin(n)) => {
                if n == 0 {
                    self.phase = ResyncPhase::Done;
                } else {
                    self.phase = ResyncPhase::Scanning;
                    out.push(ResyncAction::StartAndScan);
                }
            },
            (ResyncPhase::Scanning, ResyncEvent::Scanned(paths)) => {
                if paths.len() == 0 {
                    self.phase = ResyncPhase::Done;
                    out.push(ResyncAction::Close);
                } else {
                    assert(texts_of(paths@)[0] == paths@[0]@);
                    out.push(ResyncAction::Submit(paths[0].clone()));
                    self.phase = ResyncPhase::Sending(0);
                }
                self.paths = paths;
            },
            (ResyncPhase::Scanning, ResyncEvent::ScanFailed) => {
                self.phase = ResyncPhase::Done;
                out.push(ResyncAction::Close);
            },
            (ResyncPhase::Sending(i), ResyncEvent::Sent(ok)) => {
                assert(texts_of(self.paths@).len() == self.paths@.len());
                assert(i < self.paths.len());
                if ok {
                    out.push(ResyncAction::Report(progress_percent(i, self.paths.len())));
                }
                if i + 1 < self.paths.len() {
                    assert(texts_of(self.paths@)[i + 1] == self.paths@[i + 1]@);
                    out.push(ResyncAction::Submit(self.paths[i + 1].clone()));
                    self.phase = ResyncPhase::Sending(i + 1);
                } else {
                    out.push(ResyncAction::Close);
                    self.phase = ResyncPhase::Done;
                }
            },
            _ => {},
        }
        assert(actions_of(out@) =~= before.actions(event@));
        out
    }
}

/// One step of a change of the journal root.
#[derive(Debug)]
pub enum PathAction {
    /// Cease to watch the directory.
    Unwatch(String),
    /// Scan the directory and ingest what it holds.
    Resync(String),
    /// Begin to watch the directory.
    Watch(String),
}

/// What a [`PathAction`] holds.
pub enum PathActionView {
    Unwatch(Seq<char>),
    Resync(Seq<char>),
    Watch(Seq<char>),
}

impl View for PathAction {
    type V = PathActionView;

    open spec fn view(&self) -> PathActionView {
        match self {
            PathAction::Unwatch(p) => PathActionView::Unwatch(p@),
            PathAction::Resync(p) => PathActionView::Resync(p@),
            PathAction::Watch(p) => PathActionView::Watch(p@),
        }
    }
}

/// The views of the steps of `v`.
pub open spec fn path_actions_of(v: Seq<PathAction>) -> Seq<PathActionView> {
    Seq::new(v.len(), |i: int| v[i]@)
}

/// The steps of a change of the journal root from `previous` to `path`: the
/// old root is unwatched, the new one is resynced, and then it is watched.
pub open spec fn path_change(previous: Option<Seq<char>>, path: Seq<char>) -> Seq<PathActionView> {
    match previous {
        Some(p) => seq![PathActionView::Unwatch(p), PathActionView::Resync(path), PathActionView::Watch(path)],
        None => seq![PathActionView::Resync(path), PathActionView::Watch(path)],
    }
}

/// Sets the journal root to `path` and says what follows from it, in order:
/// the old root, where there was one, is unwatched, the new one is resynced,
/// and then it is watched.
pub fn set_journal_files_path(store: &mut MetricStore, path: &str) -> (r: Vec<PathAction>)
    ensures
        final(store)@ == (StoreView { journal_path: Some(path@), ..old(store)@ }),
        path_actions_of(r@) == path_change(old(store)@.journal_path, path@),
{
    let mut out: Vec<PathAction> = Vec::new();
    let ghost previous = store@.journal_path;
    match store.journal_path() {
        Some(p) => {
            out.push(PathAction::Unwatch(p.clone()));
        },
        None => {},
    }
    store.set_journal_path(path);
    out.push(PathAction::Resync(path.to_owned()));
    out.push(PathAction::Watch(path.to_owned()));
    assert(path_actions_of(out@) =~= path_change(previous, path@));
    out
}

/// What is to be done when the application starts.
#[derive(Debug)]
pub struct InitPlan {
    /// The directory to scan and ingest, if any.
    pub scan: Option<String>,
    /// The directory to watch, if any.
    pub watch: Option<String>,
}

/// What is to be done when the application starts: the journal root, where
/// one is set, is scanned if a metric is tracked, and it is watched in any case.
pub fn init(store: &MetricStore) -> (r: InitPlan)
    ensures
        text_of(r.watch) == store@.journal_path,
        text_of(r.scan) == if store@.tracked_metrics.len() > 0 {
            store@.journal_path
        } else {
            None
        },
{
    let watch: Option<String> = match store.journal_path() {
        Some(p) => Some(p.clone()),
        None => None,
    };
    let names = store.tracked_metrics();
    assert(texts_of(names@).len() == names@.len());
    let scan: Option<String> = if names.len() > 0 {
        match store.journal_path() {
            Some(p) => Some(p.clone()),
            None => None,
        }
    } else {
        None
    };
    InitPlan { scan, watch }
}

} // verus!
