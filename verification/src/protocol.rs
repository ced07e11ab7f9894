//! Runs of a task: what holds of every sequence of events that a task
//! takes, whoever drives it and whatever the file system holds.

use crate::diagnostic::Notice;
use crate::failure::{listing_verdict, reading_verdict, Failure, Verdict, RETRY_PAUSE_NANOS};
use crate::task::{answers, found_paths, transition, ActionView, Event, Phase, TaskView};
use crate::text::occurs;
use vstd::prelude::*;
use vstd::string::*;

verus! {

/// What a run has come to: the phase that the task is in, every action it
/// has asked for, the first of them at its start, and what it has logged.
pub struct Trace {
    pub phase: Phase,
    pub asked: Seq<ActionView>,
    pub logged: Seq<Notice>,
}

/// The run of a new task for `path` and `query` that takes `events` one
/// after the other; none if one of them does not answer what the task
/// asked for when it came.
pub open spec fn replay(path: Seq<char>, query: Seq<char>, events: Seq<Event>) -> Option<Trace>
    decreases events.len(),
{
    if events.len() == 0 {
        Some(Trace { phase: Phase::Probing, asked: seq![ActionView::Probe], logged: Seq::empty() })
    } else {
        match replay(path, query, events.drop_last()) {
            Some(trace) => if answers(trace.phase, events.last()) {
                let step = transition(TaskView { path, query, phase: trace.phase }, events.last());
                Some(
                    Trace {
                        phase: step.0,
                        asked: trace.asked.push(step.1.action),
                        logged: trace.logged + step.1.log,
                    },
                )
            } else {
                None
            },
            None => None,
        }
    }
}

/// The phase in which a task waits for the answer to `action`.
pub open spec fn phase_of(action: ActionView) -> Phase {
    match action {
        ActionView::Probe => Phase::Probing,
        ActionView::List { .. } => Phase::Listing,
        ActionView::Read { .. } => Phase::Reading,
        ActionView::Spawn { children } => Phase::Joining { outstanding: children.len() as usize },
        ActionView::Join { outstanding } => Phase::Joining { outstanding },
        ActionView::Send { .. } => Phase::Sending,
        ActionView::Finish => Phase::Finished,
    }
}

/// A step leads into the phase of the action that it asks for.
pub proof fn lemma_step_enters_the_phase_of_its_action(task: TaskView, event: Event)
    requires
        answers(task.phase, event),
    ensures
        transition(task, event).0 == phase_of(transition(task, event).1.action),
{
}

/// A run asks for one action at its start and one on each event, and the
/// task is in the phase of the last one.
pub proof fn lemma_replay_shape(path: Seq<char>, query: Seq<char>, events: Seq<Event>)
    requires
        replay(path, query, events) is Some,
    ensures
        replay(path, query, events)->0.asked.len() == events.len() + 1,
        replay(path, query, events)->0.phase == phase_of(
            replay(path, query, events)->0.asked.last(),
        ),
    decreases events.len(),
{
    if events.len() > 0 {
        lemma_replay_shape(path, query, events.drop_last());
    }
}

/// The beginning of a run is a run, and has asked for the beginning of what
/// the whole run asks for.
pub proof fn lemma_replay_prefix(path: Seq<char>, query: Seq<char>, events: Seq<Event>, upto: int)
    requires
        replay(path, query, events) is Some,
        0 <= upto <= events.len(),
    ensures
        replay(path, query, events.take(upto)) is Some,
        replay(path, query, events.take(upto))->0.asked == replay(
            path,
            query,
            events,
        )->0.asked.take(upto + 1),
    decreases events.len(),
{
    lemma_replay_shape(path, query, events);
    if upto == events.len() {
        assert(events.take(upto) =~= events);
        let asked = replay(path, query, events)->0.asked;
        assert(asked.take(upto + 1) =~= asked);
    } else {
        let shorter = events.drop_last();
        lemma_replay_prefix(path, query, shorter, upto);
        lemma_replay_shape(path, query, shorter);
        assert(shorter.take(upto) =~= events.take(upto));
        let asked = replay(path, query, events)->0.asked;
        assert(asked.drop_last().take(upto + 1) =~= asked.take(upto + 1));
    }
}

/// Each event of a run answers the action asked for just before it, and the
/// action asked for next is the task's reaction to it.
pub proof fn lemma_replay_step(path: Seq<char>, query: Seq<char>, events: Seq<Event>, i: int)
    requires
        replay(path, query, events) is Some,
        0 <= i < events.len(),
    ensures
        answers(phase_of(replay(path, query, events)->0.asked[i]), events[i]),
        replay(path, query, events)->0.asked[i + 1] == transition(
            TaskView { path, query, phase: phase_of(replay(path, query, events)->0.asked[i]) },
            events[i],
        ).1.action,
{
    let whole = replay(path, query, events)->0;
    lemma_replay_shape(path, query, events);
    lemma_replay_prefix(path, query, events, i + 1);
    let longer = events.take(i + 1);
    assert(longer.drop_last() =~= events.take(i));
    assert(longer.last() == events[i]);
    lemma_replay_prefix(path, query, events, i);
    lemma_replay_shape(path, query, events.take(i));
    let before = replay(path, query, events.take(i))->0;
    assert(before.asked.last() == whole.asked[i]);
    let after = replay(path, query, longer)->0;
    assert(after.asked.last() == whole.asked.take(i + 2)[i + 1]);
}

/// A task asks for a path to be sent on one event only: the text of its
/// file, when the text contains the query. The path is then its own.
pub proof fn lemma_sends_what_holds_the_query(
    path: Seq<char>,
    query: Seq<char>,
    events: Seq<Event>,
    i: int,
)
    requires
        replay(path, query, events) is Some,
        0 <= i < events.len(),
    ensures
        replay(path, query, events)->0.asked[i + 1] is Send <==> (events[i] matches Event::Loaded {
            contents,
        } && occurs(contents@, query)),
        replay(path, query, events)->0.asked[i + 1] is Send ==> replay(
            path,
            query,
            events,
        )->0.asked[i + 1] == (ActionView::Send { path }),
{
    lemma_replay_step(path, query, events, i);
}

/// With the action `Finish` a run is over: no event comes after it.
pub proof fn lemma_finish_is_last(path: Seq<char>, query: Seq<char>, events: Seq<Event>, i: int)
    requires
        replay(path, query, events) is Some,
        0 <= i <= events.len(),
        replay(path, query, events)->0.asked[i] is Finish,
    ensures
        i == events.len(),
{
    if i < events.len() {
        lemma_replay_step(path, query, events, i);
    }
}

/// A task asks at most once for its path to be sent.
pub proof fn lemma_sends_at_most_once(
    path: Seq<char>,
    query: Seq<char>,
    events: Seq<Event>,
    i: int,
    j: int,
)
    requires
        replay(path, query, events) is Some,
        0 <= i < j <= events.len(),
    ensures
        !(replay(path, query, events)->0.asked[i] is Send && replay(path, query, events)->0.asked[j]
            is Send),
{
    let asked = replay(path, query, events)->0.asked;
    if asked[i] is Send {
        lemma_replay_step(path, query, events, i);
        assert(asked[i + 1] is Finish);
        lemma_finish_is_last(path, query, events, i + 1);
    }
}

/// A listing shows no more paths than it has entries.
pub proof fn lemma_found_paths_len(entries: Seq<Result<String, Failure>>)
    ensures
        found_paths(entries).len() <= entries.len(),
    decreases entries.len(),
{
    if entries.len() > 0 {
        lemma_found_paths_len(entries.drop_last());
    }
}

/// A run begins with the question what the node is.
pub proof fn lemma_begins_by_probing(path: Seq<char>, query: Seq<char>, events: Seq<Event>)
    requires
        replay(path, query, events) is Some,
    ensures
        replay(path, query, events)->0.asked[0] == ActionView::Probe,
{
    lemma_replay_prefix(path, query, events, 0);
    assert(events.take(0) =~= Seq::<Event>::empty());
    let asked = replay(path, query, events)->0.asked;
    assert(asked.take(1)[0] == asked[0]);
}

/// A task asks for children to be launched on one event only: the listing
/// of its directory, when it shows an entry. The children are then the
/// entries shown, and there is at least one.
pub proof fn lemma_spawns_what_was_listed(
    path: Seq<char>,
    query: Seq<char>,
    events: Seq<Event>,
    i: int,
)
    requires
        replay(path, query, events) is Some,
        0 <= i <= events.len(),
        replay(path, query, events)->0.asked[i] is Spawn,
    ensures
        i > 0,
        events[i - 1] matches Event::Listed { entries } && replay(path, query, events)->0.asked[i]
            == (ActionView::Spawn { children: found_paths(entries@) }),
        1 <= replay(path, query, events)->0.asked[i]->children.len() <= usize::MAX,
{
    lemma_begins_by_probing(path, query, events);
    lemma_replay_step(path, query, events, i - 1);
    if let Event::Listed { entries } = events[i - 1] {
        lemma_found_paths_len(entries@);
        assert(entries@.len() == entries.len());
    }
}

/// A task that has asked for its children to be launched is not over before
/// each of them has ended. Until then it takes nothing but the news that
/// one more has ended, and asks to wait for the next; with the last one it
/// is over.
pub proof fn lemma_ends_with_its_last_child(
    path: Seq<char>,
    query: Seq<char>,
    events: Seq<Event>,
    i: int,
    ended: int,
)
    requires
        replay(path, query, events) is Some,
        0 <= i <= events.len(),
        replay(path, query, events)->0.asked[i] is Spawn,
        0 <= ended <= replay(path, query, events)->0.asked[i]->children.len(),
        i + ended <= events.len(),
    ensures
        ({
            let asked = replay(path, query, events)->0.asked;
            let children = asked[i]->children.len();
            &&& 0 < ended < children ==> asked[i + ended] == (ActionView::Join {
                outstanding: (children - ended) as usize,
            })
            &&& ended == children ==> asked[i + ended] is Finish
            &&& ended < children && i + ended < events.len() ==> events[i + ended] is ChildEnded
        }),
    decreases ended,
{
    lemma_spawns_what_was_listed(path, query, events, i);
    if ended > 0 {
        lemma_ends_with_its_last_child(path, query, events, i, ended - 1);
        lemma_replay_step(path, query, events, i + ended - 1);
    }
    if i + ended < events.len() {
        lemma_replay_step(path, query, events, i + ended);
    }
}

/// A task asks for the same again after a pause on one kind of event only:
/// a failure that its verdict retries, which is one whose text tells of
/// exhausted handles.
pub proof fn lemma_retries_exhaustion_only(
    path: Seq<char>,
    query: Seq<char>,
    events: Seq<Event>,
    i: int,
)
    requires
        replay(path, query, events) is Some,
        0 <= i < events.len(),
    ensures
        replay(path, query, events)->0.asked[i + 1] == (ActionView::List {
            pause_nanos: RETRY_PAUSE_NANOS,
        }) <==> (events[i] matches Event::ListFailed { failure } && listing_verdict(failure)
            == Verdict::Retry),
        replay(path, query, events)->0.asked[i + 1] == (ActionView::Read {
            pause_nanos: RETRY_PAUSE_NANOS,
        }) <==> (events[i] matches Event::ReadFailed { failure } && reading_verdict(failure)
            == Verdict::Retry),
{
    lemma_replay_step(path, query, events, i);
}

} // verus!
