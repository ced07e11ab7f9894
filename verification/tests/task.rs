use treegrep::diagnostic::{Diagnostic, DiagnosticKind};
use treegrep::failure::{Failure, FailureKind, RETRY_PAUSE_NANOS};
use treegrep::task::{Action, Event, Phase, Reaction, Task};

fn begin(path: &str, query: &str) -> Task {
    let (task, action) = Task::start(String::from(path), String::from(query));
    assert_eq!(action, Action::Probe);
    task
}

fn fail(kind: FailureKind, message: &str) -> Failure {
    Failure { kind, message: String::from(message) }
}

fn quiet(action: Action) -> Option<Reaction> {
    Some(Reaction { log: vec![], action })
}

fn ending(kind: DiagnosticKind, subject: &str) -> Option<Reaction> {
    Some(Reaction { log: vec![Diagnostic::new(kind, subject)], action: Action::Finish })
}

fn file_task(path: &str, query: &str) -> Task {
    let mut task = begin(path, query);
    assert_eq!(task.step(Event::Probed { is_dir: false }), quiet(Action::Read { pause_nanos: 0 }));
    task
}

fn dir_task(path: &str, query: &str) -> Task {
    let mut task = begin(path, query);
    assert_eq!(task.step(Event::Probed { is_dir: true }), quiet(Action::List { pause_nanos: 0 }));
    task
}

#[test]
fn task_starts_by_probing() {
    let (task, action) = Task::start(String::from("/tmp/a.txt"), String::from("hello"));
    assert_eq!(action, Action::Probe);
    assert_eq!(task.phase(), Phase::Probing);
    assert_eq!(task.path(), "/tmp/a.txt");
    assert_eq!(task.query(), "hello");
    assert!(!task.is_finished());
}

#[test]
fn directory_is_listed_at_once() {
    let task = dir_task("/tmp", "hello");
    assert_eq!(task.phase(), Phase::Listing);
}

#[test]
fn anything_else_is_read_at_once() {
    let task = file_task("/tmp/a.txt", "hello");
    assert_eq!(task.phase(), Phase::Reading);
}

#[test]
fn file_with_the_query_is_sent() {
    let mut task = file_task("/tmp/a.txt", "hello");
    assert_eq!(
        task.step(Event::Loaded { contents: String::from("hello world") }),
        quiet(Action::Send { path: String::from("/tmp/a.txt") })
    );
    assert_eq!(task.phase(), Phase::Sending);
    assert_eq!(task.step(Event::Sent { delivered: true }), quiet(Action::Finish));
    assert!(task.is_finished());
}

#[test]
fn file_without_the_query_is_passed_over() {
    let mut task = file_task("/tmp/b.txt", "hello");
    let reaction = task.step(Event::Loaded { contents: String::from("goodbye") });
    assert_eq!(reaction, quiet(Action::Finish));
    assert!(task.is_finished());
}

#[test]
fn empty_file_is_sent_for_the_empty_query_only() {
    let mut task = file_task("/tmp/empty", "");
    assert_eq!(
        task.step(Event::Loaded { contents: String::new() }),
        quiet(Action::Send { path: String::from("/tmp/empty") })
    );
    let mut task = file_task("/tmp/empty", "x");
    assert_eq!(task.step(Event::Loaded { contents: String::new() }), quiet(Action::Finish));
}

#[test]
fn closed_sink_is_logged() {
    let mut task = file_task("/tmp/a.txt", "hello");
    task.step(Event::Loaded { contents: String::from("hello") });
    assert_eq!(task.step(Event::Sent { delivered: false }), ending(DiagnosticKind::SinkClosed, ""));
    assert!(task.is_finished());
}

#[test]
fn binary_file_is_skipped_in_silence() {
    let mut task = file_task("/tmp/image.png", "hello");
    assert_eq!(
        task.step(Event::ReadFailed {
            failure: fail(FailureKind::InvalidData, "stream did not contain valid UTF-8"),
        }),
        quiet(Action::Finish)
    );
    assert!(task.is_finished());
}

#[test]
fn unreadable_file_is_logged_by_its_path() {
    let mut task = file_task("/tmp/secret", "hello");
    assert_eq!(
        task.step(Event::ReadFailed {
            failure: fail(FailureKind::PermissionDenied, "Permission denied (os error 13)"),
        }),
        ending(DiagnosticKind::PermissionDenied, "/tmp/secret")
    );
    assert!(task.is_finished());
}

#[test]
fn vanished_file_is_logged_by_its_error() {
    let mut task = file_task("/tmp/gone", "hello");
    assert_eq!(
        task.step(Event::ReadFailed {
            failure: fail(FailureKind::Other, "No such file or directory (os error 2)"),
        }),
        ending(DiagnosticKind::ReadFailed, "No such file or directory (os error 2)")
    );
}

#[test]
fn refused_read_is_repeated_after_the_pause() {
    let mut task = file_task("/tmp/a.txt", "hello");
    for _ in 0..5 {
        assert_eq!(
            task.step(Event::ReadFailed {
                failure: fail(FailureKind::Other, "Too many open files (os error 24)"),
            }),
            quiet(Action::Read { pause_nanos: RETRY_PAUSE_NANOS })
        );
        assert_eq!(task.phase(), Phase::Reading);
    }
    assert_eq!(
        task.step(Event::Loaded { contents: String::from("say hello") }),
        quiet(Action::Send { path: String::from("/tmp/a.txt") })
    );
}

#[test]
fn refused_listing_is_repeated_after_the_pause() {
    let mut task = dir_task("/tmp", "hello");
    for _ in 0..5 {
        assert_eq!(
            task.step(Event::ListFailed {
                failure: fail(FailureKind::Other, "Too many open files (os error 24)"),
            }),
            quiet(Action::List { pause_nanos: 1000 })
        );
        assert_eq!(task.phase(), Phase::Listing);
    }
    assert_eq!(
        task.step(Event::Listed { entries: vec![Ok(String::from("/tmp/a.txt"))] }),
        quiet(Action::Spawn { children: vec![String::from("/tmp/a.txt")] })
    );
}

#[test]
fn unlistable_directory_is_logged_by_its_path() {
    let mut task = dir_task("/root", "hello");
    assert_eq!(
        task.step(Event::ListFailed {
            failure: fail(FailureKind::PermissionDenied, "Permission denied (os error 13)"),
        }),
        ending(DiagnosticKind::PermissionDenied, "/root")
    );
    assert!(task.is_finished());
}

#[test]
fn failed_listing_is_logged_by_its_error() {
    let mut task = dir_task("/tmp/odd", "hello");
    assert_eq!(
        task.step(Event::ListFailed {
            failure: fail(FailureKind::Other, "Input/output error (os error 5)"),
        }),
        ending(DiagnosticKind::ListingFailed, "Input/output error (os error 5)")
    );
}

#[test]
fn listed_entries_are_spawned_and_failed_ones_logged() {
    let mut task = dir_task("/tmp", "hello");
    let reaction = task.step(Event::Listed {
        entries: vec![
            Ok(String::from("/tmp/a.txt")),
            Err(fail(FailureKind::Other, "Input/output error (os error 5)")),
            Ok(String::from("/tmp/sub")),
            Err(fail(FailureKind::PermissionDenied, "Permission denied (os error 13)")),
            Ok(String::from("/tmp/b.txt")),
        ],
    });
    assert_eq!(
        reaction,
        Some(Reaction {
            log: vec![
                Diagnostic::new(DiagnosticKind::EntryFailed, "Input/output error (os error 5)"),
                Diagnostic::new(DiagnosticKind::EntryFailed, "Permission denied (os error 13)"),
            ],
            action: Action::Spawn {
                children: vec![
                    String::from("/tmp/a.txt"),
                    String::from("/tmp/sub"),
                    String::from("/tmp/b.txt"),
                ],
            },
        })
    );
    assert_eq!(task.phase(), Phase::Joining { outstanding: 3 });
}

#[test]
fn empty_directory_is_over_at_once() {
    let mut task = dir_task("/tmp/hollow", "hello");
    assert_eq!(task.step(Event::Listed { entries: vec![] }), quiet(Action::Finish));
    assert!(task.is_finished());
}

#[test]
fn directory_of_failed_entries_is_over_at_once() {
    let mut task = dir_task("/tmp/odd", "hello");
    assert_eq!(
        task.step(Event::Listed {
            entries: vec![
                Err(fail(FailureKind::Other, "Input/output error (os error 5)")),
                Err(fail(FailureKind::Other, "Too many open files (os error 24)")),
            ],
        }),
        Some(Reaction {
            log: vec![
                Diagnostic::new(DiagnosticKind::EntryFailed, "Input/output error (os error 5)"),
                Diagnostic::new(DiagnosticKind::EntryFailed, "Too many open files (os error 24)"),
            ],
            action: Action::Finish,
        })
    );
    assert!(task.is_finished());
}

#[test]
fn directory_ends_when_its_only_child_has_ended() {
    let mut task = dir_task("/tmp", "hello");
    task.step(Event::Listed { entries: vec![Ok(String::from("/tmp/a.txt"))] });
    assert!(!task.is_finished());
    assert_eq!(task.phase(), Phase::Joining { outstanding: 1 });
    assert_eq!(task.step(Event::ChildEnded { panicked: false }), quiet(Action::Finish));
    assert!(task.is_finished());
}

#[test]
fn directory_waits_for_each_of_its_children() {
    let mut task = dir_task("/tmp", "hello");
    task.step(Event::Listed {
        entries: vec![
            Ok(String::from("/tmp/a")),
            Ok(String::from("/tmp/b")),
            Err(fail(FailureKind::Other, "Input/output error (os error 5)")),
            Ok(String::from("/tmp/c")),
        ],
    });
    assert_eq!(task.phase(), Phase::Joining { outstanding: 3 });
    assert_eq!(
        task.step(Event::ChildEnded { panicked: false }),
        quiet(Action::Join { outstanding: 2 })
    );
    assert_eq!(task.phase(), Phase::Joining { outstanding: 2 });
    assert_eq!(
        task.step(Event::ChildEnded { panicked: false }),
        quiet(Action::Join { outstanding: 1 })
    );
    assert!(!task.is_finished());
    assert_eq!(task.step(Event::ChildEnded { panicked: false }), quiet(Action::Finish));
    assert!(task.is_finished());
    assert_eq!(task.step(Event::ChildEnded { panicked: false }), None);
}

#[test]
fn panicked_children_are_logged_one_by_one() {
    let mut task = dir_task("/tmp", "hello");
    task.step(Event::Listed {
        entries: vec![
            Ok(String::from("/tmp/a")),
            Ok(String::from("/tmp/b")),
            Ok(String::from("/tmp/c")),
        ],
    });
    assert_eq!(
        task.step(Event::ChildEnded { panicked: true }),
        Some(Reaction {
            log: vec![Diagnostic::new(DiagnosticKind::TaskPanicked, "")],
            action: Action::Join { outstanding: 2 },
        })
    );
    assert_eq!(
        task.step(Event::ChildEnded { panicked: false }),
        quiet(Action::Join { outstanding: 1 })
    );
    assert_eq!(
        task.step(Event::ChildEnded { panicked: true }),
        ending(DiagnosticKind::TaskPanicked, "")
    );
    assert!(task.is_finished());
}

#[test]
fn event_that_was_not_asked_for_is_turned_down() {
    let mut task = begin("/tmp", "hello");
    assert_eq!(task.step(Event::Loaded { contents: String::from("hello") }), None);
    assert_eq!(task.step(Event::Listed { entries: vec![] }), None);
    assert_eq!(task.step(Event::ChildEnded { panicked: false }), None);
    assert_eq!(task.step(Event::Sent { delivered: true }), None);
    assert_eq!(task.phase(), Phase::Probing);
    assert_eq!(task.path(), "/tmp");
    assert_eq!(task.query(), "hello");

    let mut task = dir_task("/tmp", "hello");
    assert_eq!(task.step(Event::Loaded { contents: String::from("hello") }), None);
    assert_eq!(task.step(Event::Probed { is_dir: true }), None);
    assert_eq!(task.step(Event::ChildEnded { panicked: true }), None);
    assert_eq!(task.phase(), Phase::Listing);

    let mut task = file_task("/tmp/a.txt", "hello");
    assert_eq!(task.step(Event::Listed { entries: vec![] }), None);
    assert_eq!(task.step(Event::Sent { delivered: true }), None);
    assert_eq!(task.phase(), Phase::Reading);
}

#[test]
fn finished_task_takes_no_event() {
    let mut task = file_task("/tmp/b.txt", "hello");
    task.step(Event::Loaded { contents: String::from("goodbye") });
    assert!(task.is_finished());
    assert_eq!(task.step(Event::Probed { is_dir: false }), None);
    assert_eq!(task.step(Event::Loaded { contents: String::from("hello") }), None);
    assert_eq!(task.step(Event::Sent { delivered: true }), None);
    assert_eq!(task.step(Event::ChildEnded { panicked: false }), None);
    assert!(task.is_finished());
}

#[test]
fn task_asks_to_send_at_most_once() {
    let mut task = file_task("/tmp/a.txt", "hello");
    assert_eq!(
        task.step(Event::Loaded { contents: String::from("hello") }),
        quiet(Action::Send { path: String::from("/tmp/a.txt") })
    );
    assert_eq!(task.step(Event::Loaded { contents: String::from("hello") }), None);
    assert_eq!(task.step(Event::Sent { delivered: true }), quiet(Action::Finish));
    assert_eq!(task.step(Event::Loaded { contents: String::from("hello") }), None);
    assert_eq!(task.step(Event::Sent { delivered: true }), None);
}

#[test]
fn directory_task_takes_only_the_join_while_its_children_run() {
    let mut task = dir_task("/tmp", "hello");
    task.step(Event::Listed { entries: vec![Ok(String::from("/tmp/a.txt"))] });
    assert_eq!(task.step(Event::Listed { entries: vec![] }), None);
    assert_eq!(task.step(Event::Loaded { contents: String::from("hello") }), None);
    assert_eq!(task.step(Event::Sent { delivered: true }), None);
    assert!(!task.is_finished());
    assert_eq!(task.step(Event::ChildEnded { panicked: false }), quiet(Action::Finish));
    assert!(task.is_finished());
}
