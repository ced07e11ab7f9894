//! The task of one node of the tree: what it asks to have done, and what it
//! decides on each answer. The work itself (asking the file system, waiting,
//! launching the children, sending a match) is done by whoever drives the
//! task.

use crate::diagnostic::{
    lemma_notices_empty, lemma_notices_push, notices, Diagnostic, DiagnosticKind, Notice,
};
use crate::failure::{listing_verdict, reading_verdict, Failure, Verdict, RETRY_PAUSE_NANOS};
use crate::text::{contains, lemma_texts_push, occurs, texts};
use vstd::prelude::*;
use vstd::string::*;

verus! {

/// Where a task stands: what it has asked for and waits to hear of.
#[derive(Clone, Copy, Debug, PartialEq, Eq, Structural)]
pub enum Phase {
    /// Asked whether the node is a directory.
    Probing,
    /// Asked for the directory's entries.
    Listing,
    /// Asked for the file's text.
    Reading,
    /// Launched one task per child; so many of them have not ended yet.
    Joining { outstanding: usize },
    /// Asked for the path to be sent to the result sink.
    Sending,
    /// Nothing is left to do.
    Finished,
}

/// What the driver reports back to a task.
#[derive(Debug, PartialEq, Eq)]
pub enum Event {
    /// The node is a directory, or it is not.
    Probed { is_dir: bool },
    /// The directory could not be listed.
    ListFailed { failure: Failure },
    /// The directory was listed: for each entry its path, or the failure
    /// that stood in its place.
    Listed { entries: Vec<Result<String, Failure>> },
    /// The file could not be read as text.
    ReadFailed { failure: Failure },
    /// The file's text.
    Loaded { contents: String },
    /// One more child task has ended, in order or abnormally.
    ChildEnded { panicked: bool },
    /// The sink took the path, or it did not.
    Sent { delivered: bool },
}

/// What a task asks its driver to do next.
#[derive(Debug, PartialEq, Eq)]
pub enum Action {
    /// Find out whether the node is a directory, and report `Probed`.
    Probe,
    /// Wait so long, list the directory, and report `Listed` or `ListFailed`.
    List { pause_nanos: u64 },
    /// Wait so long, read the file, and report `Loaded` or `ReadFailed`.
    Read { pause_nanos: u64 },
    /// Launch one task for each of these paths, of which there is at least
    /// one; then wait until one of them has ended, and report `ChildEnded`.
    Spawn { children: Vec<String> },
    /// Wait until one more of the children has ended, of which so many still
    /// run, and report `ChildEnded`.
    Join { outstanding: usize },
    /// Send the path to the result sink, and report `Sent`.
    Send { path: String },
    /// Nothing: the task is over.
    Finish,
}

/// A task's answer to an event: what to log, then what to do.
#[derive(Debug, PartialEq, Eq)]
pub struct Reaction {
    pub log: Vec<Diagnostic>,
    pub action: Action,
}

/// The task of one node: its path, the query, and where it stands.
#[derive(Debug)]
pub struct Task {
    path: String,
    query: String,
    phase: Phase,
}

/// A task as a mathematical value.
pub struct TaskView {
    pub path: Seq<char>,
    pub query: Seq<char>,
    pub phase: Phase,
}

/// An action as a mathematical value.
pub enum ActionView {
    Probe,
    List { pause_nanos: u64 },
    Read { pause_nanos: u64 },
    Spawn { children: Seq<Seq<char>> },
    Join { outstanding: usize },
    Send { path: Seq<char> },
    Finish,
}

/// A reaction as a mathematical value.
pub struct ReactionView {
    pub log: Seq<Notice>,
    pub action: ActionView,
}

impl View for Action {
    type V = ActionView;

    open spec fn view(&self) -> ActionView {
        match *self {
            Action::Probe => ActionView::Probe,
            Action::List { pause_nanos } => ActionView::List { pause_nanos },
            Action::Read { pause_nanos } => ActionView::Read { pause_nanos },
            Action::Spawn { children } => ActionView::Spawn { children: texts(children@) },
            Action::Join { outstanding } => ActionView::Join { outstanding },
            Action::Send { path } => ActionView::Send { path: path@ },
            Action::Finish => ActionView::Finish,
        }
    }
}

impl View for Reaction {
    type V = ReactionView;

    open spec fn view(&self) -> ReactionView {
        ReactionView { log: notices(self.log@), action: self.action@ }
    }
}

impl View for Task {
    type V = TaskView;

    closed spec fn view(&self) -> TaskView {
        TaskView { path: self.path@, query: self.query@, phase: self.phase }
    }
}

/// The event is an answer to what a task in this phase has asked for.
pub open spec fn answers(phase: Phase, event: Event) -> bool {
    match phase {
        Phase::Probing => event is Probed,
        Phase::Listing => event is ListFailed || event is Listed,
        Phase::Reading => event is ReadFailed || event is Loaded,
        Phase::Joining { .. } => event is ChildEnded,
        Phase::Sending => event is Sent,
        Phase::Finished => false,
    }
}

/// The path of an entry that was listed; none for one that failed.
pub open spec fn entry_path() -> spec_fn(Result<String, Failure>) -> Option<Seq<char>> {
    |entry: Result<String, Failure>|
        match entry {
            Ok(path) => Some(path@),
            Err(_) => None,
        }
}

/// The diagnostic for an entry that failed; none for one that was listed.
pub open spec fn entry_notice() -> spec_fn(Result<String, Failure>) -> Option<Notice> {
    |entry: Result<String, Failure>|
        match entry {
            Ok(_) => None,
            Err(failure) => Some(
                Notice { kind: DiagnosticKind::EntryFailed, subject: failure.message@ },
            ),
        }
}

/// The paths of the entries that were listed, in the listing's order.
pub open spec fn found_paths(entries: Seq<Result<String, Failure>>) -> Seq<Seq<char>> {
    entries.filter_map(entry_path())
}

/// One diagnostic for each entry that failed, in the listing's order.
pub open spec fn entry_notices(entries: Seq<Result<String, Failure>>) -> Seq<Notice> {
    entries.filter_map(entry_notice())
}

/// The diagnostic of the given kind for a failure at `path`: denied
/// permission names the path, the others carry the error's text.
pub open spec fn failure_notice(kind: DiagnosticKind, path: Seq<char>, failure: Failure) -> Notice {
    Notice {
        kind,
        subject: if kind == DiagnosticKind::PermissionDenied {
            path
        } else {
            failure.message@
        },
    }
}

/// A reaction that logs nothing.
pub open spec fn quiet(action: ActionView) -> ReactionView {
    ReactionView { log: Seq::empty(), action }
}

/// What follows from a verdict on a failure at `path`: on `Retry` the task
/// stays in its phase and asks for the same again after the pause; else
/// it is over, with the diagnostic if one is due.
pub open spec fn settle(
    verdict: Verdict,
    path: Seq<char>,
    failure: Failure,
    phase: Phase,
    again: ActionView,
) -> (Phase, ReactionView) {
    match verdict {
        Verdict::Retry => (phase, quiet(again)),
        Verdict::Skip => (Phase::Finished, quiet(ActionView::Finish)),
        Verdict::Report(kind) => (
            Phase::Finished,
            ReactionView {
                log: seq![failure_notice(kind, path, failure)],
                action: ActionView::Finish,
            },
        ),
    }
}

/// What follows from a listing: the failed entries are logged; with no
/// entry left the task is over, else it asks for a task for each and waits
/// for all of them.
pub open spec fn fan_out(entries: Seq<Result<String, Failure>>) -> (Phase, ReactionView) {
    let children = found_paths(entries);
    if children.len() == 0 {
        (Phase::Finished, ReactionView { log: entry_notices(entries), action: ActionView::Finish })
    } else {
        (
            Phase::Joining { outstanding: children.len() as usize },
            ReactionView { log: entry_notices(entries), action: ActionView::Spawn { children } },
        )
    }
}

/// What follows when one of `outstanding` children has ended: the task is
/// over with the last of them, and waits for the next one before. A child
/// that ended abnormally is logged, and changes nothing else.
pub open spec fn join(outstanding: usize, panicked: bool) -> (Phase, ReactionView) {
    let log = if panicked {
        seq![Notice { kind: DiagnosticKind::TaskPanicked, subject: Seq::empty() }]
    } else {
        Seq::empty()
    };
    if outstanding <= 1 {
        (Phase::Finished, ReactionView { log, action: ActionView::Finish })
    } else {
        let left = (outstanding - 1) as usize;
        (
            Phase::Joining { outstanding: left },
            ReactionView { log, action: ActionView::Join { outstanding: left } },
        )
    }
}

/// How many children a task in this phase waits for.
pub open spec fn outstanding(phase: Phase) -> usize {
    match phase {
        Phase::Joining { outstanding } => outstanding,
        _ => 0,
    }
}

/// The phase that a task enters on an event that answers it, and its
/// reaction.
pub open spec fn transition(task: TaskView, event: Event) -> (Phase, ReactionView) {
    match event {
        Event::Probed { is_dir } => if is_dir {
            (Phase::Listing, quiet(ActionView::List { pause_nanos: 0 }))
        } else {
            (Phase::Reading, quiet(ActionView::Read { pause_nanos: 0 }))
        },
        Event::ListFailed { failure } => settle(
            listing_verdict(failure),
            task.path,
            failure,
            Phase::Listing,
            ActionView::List { pause_nanos: RETRY_PAUSE_NANOS },
        ),
        Event::Listed { entries } => fan_out(entries@),
        Event::ReadFailed { failure } => settle(
            reading_verdict(failure),
            task.path,
            failure,
            Phase::Reading,
            ActionView::Read { pause_nanos: RETRY_PAUSE_NANOS },
        ),
        Event::Loaded { contents } => if occurs(contents@, task.query) {
            (Phase::Sending, quiet(ActionView::Send { path: task.path }))
        } else {
            (Phase::Finished, quiet(ActionView::Finish))
        },
        Event::ChildEnded { panicked } => join(outstanding(task.phase), panicked),
        Event::Sent { delivered } => (
            Phase::Finished,
            ReactionView {
                log: if delivered {
                    Seq::empty()
                } else {
                    seq![Notice { kind: DiagnosticKind::SinkClosed, subject: Seq::empty() }]
                },
                action: ActionView::Finish,
            },
        ),
    }
}

/// Splits a listing into the paths to descend into and the diagnostics for
/// the entries that failed.
fn split_listing(entries: &Vec<Result<String, Failure>>) -> (out: (Phase, Reaction))
    ensures
        out.0 == fan_out(entries@).0,
        out.1@ == fan_out(entries@).1,
{
    let mut children: Vec<String> = Vec::new();
    let mut log: Vec<Diagnostic> = Vec::new();
    let mut i: usize = 0;
    assert(entries@.take(0) =~= Seq::empty());
    while i < entries.len()
        invariant
            i <= entries.len(),
            texts(children@) =~= found_paths(entries@.take(i as int)),
            notices(log@) =~= entry_notices(entries@.take(i as int)),
        decreases entries.len() - i,
    {
        proof {
            entries@.lemma_filter_map_take_succ(entry_path(), i as int);
            entries@.lemma_filter_map_take_succ(entry_notice(), i as int);
        }
        match &entries[i] {
            Ok(path) => {
                let child = path.clone();
                proof {
                    lemma_texts_push(children@, child);
                }
                children.push(child);
            },
            Err(failure) => {
                let entry = Diagnostic::new(DiagnosticKind::EntryFailed, failure.message.as_str());
                proof {
                    lemma_notices_push(log@, entry);
                }
                log.push(entry);
            },
        }
        i += 1;
    }
    assert(entries@.take(i as int) =~= entries@);
    if children.len() == 0 {
        (Phase::Finished, Reaction { log, action: Action::Finish })
    } else {
        (
            Phase::Joining { outstanding: children.len() },
            Reaction { log, action: Action::Spawn { children } },
        )
    }
}

/// The reaction to a failure on which the verdict is given.
fn settled(
    verdict: Verdict,
    path: &String,
    failure: &Failure,
    phase: Phase,
    again: Action,
) -> (out: (Phase, Reaction))
    ensures
        out.0 == settle(verdict, path@, *failure, phase, again@).0,
        out.1@ == settle(verdict, path@, *failure, phase, again@).1,
{
    match verdict {
        Verdict::Retry => (phase, silent(again)),
        Verdict::Skip => (Phase::Finished, silent(Action::Finish)),
        Verdict::Report(kind) => {
            let subject = match kind {
                DiagnosticKind::PermissionDenied => path.as_str(),
                _ => failure.message.as_str(),
            };
            let entry = Diagnostic::new(kind, subject);
            let mut log: Vec<Diagnostic> = Vec::new();
            proof {
                lemma_notices_empty();
                lemma_notices_push(log@, entry);
                assert(log@ =~= Seq::empty());
                assert(Seq::<Notice>::empty().push(entry@) =~= seq![entry@]);
            }
            log.push(entry);
            (Phase::Finished, Reaction { log, action: Action::Finish })
        },
    }
}

/// A reaction that logs nothing.
fn silent(action: Action) -> (reaction: Reaction)
    ensures
        reaction@ == quiet(action@),
{
    let reaction = Reaction { log: Vec::new(), action };
    proof {
        lemma_notices_empty();
        assert(reaction.log@ =~= Seq::empty());
    }
    reaction
}

/// A reaction that asks for `action` and logs one diagnostic of the given
/// kind, without a subject, if `due`, and nothing if not.
fn noting(kind: DiagnosticKind, due: bool, action: Action) -> (reaction: Reaction)
    ensures
        reaction@ == (ReactionView {
            log: if due {
                seq![Notice { kind, subject: Seq::empty() }]
            } else {
                Seq::empty()
            },
            action: action@,
        }),
{
    let mut log: Vec<Diagnostic> = Vec::new();
    proof {
        lemma_notices_empty();
        assert(log@ =~= Seq::empty());
    }
    if due {
        proof {
            reveal_strlit("");
        }
        let entry = Diagnostic::new(kind, "");
        proof {
            lemma_notices_push(log@, entry);
            assert(entry@.subject =~= Seq::empty());
            assert(Seq::<Notice>::empty().push(entry@) =~= seq![entry@]);
        }
        log.push(entry);
    }
    Reaction { log, action }
}

impl Task {
    /// The task for the node at `path`, with the first thing it asks for:
    /// to find out what the node is.
    pub fn start(path: String, query: String) -> (begun: (Task, Action))
        ensures
            begun.0@ == (TaskView { path: path@, query: query@, phase: Phase::Probing }),
            begun.1@ == ActionView::Probe,
    {
        (Task { path, query, phase: Phase::Probing }, Action::Probe)
    }

    /// The node's path.
    pub fn path(&self) -> (path: &String)
        ensures
            path@ == self@.path,
    {
        &self.path
    }

    /// The text that is looked for.
    pub fn query(&self) -> (query: &String)
        ensures
            query@ == self@.query,
    {
        &self.query
    }

    /// Where the task stands.
    pub fn phase(&self) -> (phase: Phase)
        ensures
            phase == self@.phase,
    {
        self.phase
    }

    /// Whether the task is over.
    pub fn is_finished(&self) -> (over: bool)
        ensures
            over == (self@.phase == Phase::Finished),
    {
        match self.phase {
            Phase::Finished => true,
            _ => false,
        }
    }

    /// Takes an event. If it answers what the task has asked for, the task
    /// moves on and says what to log and what to do next. If it does not, the
    /// task stays as it is and gives no reaction.
    pub fn step(&mut self, event: Event) -> (reaction: Option<Reaction>)
        ensures
            final(self)@.path == old(self)@.path,
            final(self)@.query == old(self)@.query,
            match reaction {
                Some(reaction) => {
                    &&& answers(old(self)@.phase, event)
                    &&& final(self)@.phase == transition(old(self)@, event).0
                    &&& reaction@ == transition(old(self)@, event).1
                },
                None => !answers(old(self)@.phase, event) && final(self)@.phase == old(self)@.phase,
            },
    {
        let phase = self.phase;
        match (phase, event) {
            (Phase::Probing, Event::Probed { is_dir }) => {
                if is_dir {
                    self.phase = Phase::Listing;
                    Some(silent(Action::List { pause_nanos: 0 }))
                } else {
                    self.phase = Phase::Reading;
                    Some(silent(Action::Read { pause_nanos: 0 }))
                }
            },
            (Phase::Listing, Event::ListFailed { failure }) => {
                let (next, reaction) = settled(
                    failure.on_listing(),
                    &self.path,
                    &failure,
                    Phase::Listing,
                    Action::List { pause_nanos: RETRY_PAUSE_NANOS },
                );
                self.phase = next;
                Some(reaction)
            },
            (Phase::Listing, Event::Listed { entries }) => {
                let (next, reaction) = split_listing(&entries);
                self.phase = next;
                Some(reaction)
            },
            (Phase::Reading, Event::ReadFailed { failure }) => {
                let (next, reaction) = settled(
                    failure.on_reading(),
                    &self.path,
                    &failure,
                    Phase::Reading,
                    Action::Read { pause_nanos: RETRY_PAUSE_NANOS },
                );
                self.phase = next;
                Some(reaction)
            },
            (Phase::Reading, Event::Loaded { contents }) => {
                if contains(contents.as_str(), self.query.as_str()) {
                    self.phase = Phase::Sending;
                    Some(silent(Action::Send { path: self.path.clone() }))
                } else {
                    self.phase = Phase::Finished;
                    Some(silent(Action::Finish))
                }
            },
            (Phase::Joining { outstanding }, Event::ChildEnded { panicked }) => {
                if outstanding <= 1 {
                    self.phase = Phase::Finished;
                    Some(noting(DiagnosticKind::TaskPanicked, panicked, Action::Finish))
                } else {
                    let left: usize = outstanding - 1;
                    self.phase = Phase::Joining { outstanding: left };
                    Some(
                        noting(
                            DiagnosticKind::TaskPanicked,
                            panicked,
                            Action::Join { outstanding: left },
                        ),
                    )
                }
            },
            (Phase::Sending, Event::Sent { delivered }) => {
                self.phase = Phase::Finished;
                Some(noting(DiagnosticKind::SinkClosed, !delivered, Action::Finish))
            },
            _ => None,
        }
    }
}

} // verus!
