use treegrep::diagnostic::{Diagnostic, DiagnosticKind};
use treegrep::failure::{Failure, FailureKind};
use treegrep::snapshot::{search, walk, Node, Report};
use treegrep::task::Event;

fn file(path: &str, text: &str) -> Node {
    Node::File { path: String::from(path), refusals: vec![], read: Ok(String::from(text)) }
}

fn broken(path: &str, kind: FailureKind, message: &str) -> Node {
    Node::File {
        path: String::from(path),
        refusals: vec![],
        read: Err(Failure { kind, message: String::from(message) }),
    }
}

fn binary(path: &str) -> Node {
    broken(path, FailureKind::InvalidData, "stream did not contain valid UTF-8")
}

fn gone(path: &str) -> Node {
    broken(path, FailureKind::Other, "No such file or directory (os error 2)")
}

fn dir(path: &str, entries: Vec<Node>) -> Node {
    Node::Dir {
        path: String::from(path),
        refusals: vec![],
        listing: Ok(entries.into_iter().map(Ok).collect()),
    }
}

fn exhausted() -> Failure {
    Failure { kind: FailureKind::Other, message: String::from("Too many open files (os error 24)") }
}

fn denied() -> Failure {
    Failure {
        kind: FailureKind::PermissionDenied,
        message: String::from("Permission denied (os error 13)"),
    }
}

fn sorted(mut paths: Vec<String>) -> Vec<String> {
    paths.sort();
    paths
}

#[test]
fn search_reports_the_one_file_that_holds_the_query() {
    let root =
        dir("/root", vec![file("/root/a.txt", "hello world"), file("/root/b.txt", "goodbye")]);
    assert!(root.is_settled());
    let report = search(&root, "hello");
    assert_eq!(report.matches, vec![String::from("/root/a.txt")]);
    assert_eq!(report.log, vec![]);
}

#[test]
fn search_descends_into_subdirectories() {
    let sub = dir("/root/sub", vec![file("/root/sub/c.txt", "needle in haystack")]);
    let root = dir("/root", vec![sub]);
    assert!(root.is_settled());
    assert_eq!(search(&root, "needle").matches, vec![String::from("/root/sub/c.txt")]);
}

#[test]
fn search_reports_at_any_depth() {
    let mut node = file("/r/1/2/3/4/5/6/7/8/c.txt", "needle in haystack");
    let mut path = String::from("/r/1/2/3/4/5/6/7/8");
    for _ in 0..9 {
        node = dir(&path, vec![node]);
        let cut = path.rfind('/').unwrap();
        path.truncate(cut);
    }
    assert!(node.is_settled());
    let report = search(&node, "needle");
    assert_eq!(report.matches, vec![String::from("/r/1/2/3/4/5/6/7/8/c.txt")]);
    assert_eq!(report.log, vec![]);
}

#[test]
fn unreadable_file_is_logged_and_its_siblings_are_searched() {
    let root = dir(
        "/root",
        vec![
            file("/root/a.txt", "hello world"),
            Node::File {
                path: String::from("/root/secret.txt"),
                refusals: vec![],
                read: Err(denied()),
            },
            file("/root/z.txt", "hello again"),
        ],
    );
    assert!(root.is_settled());
    let report = search(&root, "hello");
    assert_eq!(report.matches, vec![String::from("/root/a.txt"), String::from("/root/z.txt")]);
    assert_eq!(
        report.log,
        vec![Diagnostic::new(DiagnosticKind::PermissionDenied, "/root/secret.txt")]
    );
    assert_eq!(report.log[0].render(), "Permission denied: /root/secret.txt");
}

#[test]
fn binary_file_is_left_out_without_a_word() {
    let root = dir(
        "/root",
        vec![
            binary("/root/image.png"),
            file("/root/a.txt", "hello"),
        ],
    );
    assert!(root.is_settled());
    assert_eq!(
        search(&root, "hello"),
        Report { matches: vec![String::from("/root/a.txt")], log: vec![] }
    );
}

#[test]
fn vanished_file_is_logged_by_its_error_in_a_search() {
    let root = dir("/root", vec![gone("/root/gone")]);
    let report = search(&root, "hello");
    assert_eq!(report.matches, Vec::<String>::new());
    assert_eq!(
        report.log,
        vec![Diagnostic::new(DiagnosticKind::ReadFailed, "No such file or directory (os error 2)")]
    );
}

#[test]
fn unlistable_directory_is_logged_and_left() {
    let root = dir(
        "/root",
        vec![
            Node::Dir {
                path: String::from("/root/private"),
                refusals: vec![],
                listing: Err(denied()),
            },
            Node::Dir {
                path: String::from("/root/odd"),
                refusals: vec![],
                listing: Err(Failure {
                    kind: FailureKind::Other,
                    message: String::from("Input/output error (os error 5)"),
                }),
            },
            file("/root/a.txt", "hello"),
        ],
    );
    assert!(root.is_settled());
    let report = search(&root, "hello");
    assert_eq!(report.matches, vec![String::from("/root/a.txt")]);
    assert_eq!(
        report.log,
        vec![
            Diagnostic::new(DiagnosticKind::PermissionDenied, "/root/private"),
            Diagnostic::new(DiagnosticKind::ListingFailed, "Input/output error (os error 5)"),
        ]
    );
}

#[test]
fn failed_entry_is_logged_and_the_others_are_searched() {
    let root = Node::Dir {
        path: String::from("/root"),
        refusals: vec![],
        listing: Ok(vec![
            Ok(file("/root/a.txt", "hello")),
            Err(Failure {
                kind: FailureKind::Other,
                message: String::from("Input/output error (os error 5)"),
            }),
            Ok(gone("/root/gone")),
            Ok(file("/root/b.txt", "hello too")),
        ]),
    };
    assert!(root.is_settled());
    let report = search(&root, "hello");
    assert_eq!(report.matches, vec![String::from("/root/a.txt"), String::from("/root/b.txt")]);
    assert_eq!(
        report.log,
        vec![
            Diagnostic::new(DiagnosticKind::EntryFailed, "Input/output error (os error 5)"),
            Diagnostic::new(DiagnosticKind::ReadFailed, "No such file or directory (os error 2)"),
        ]
    );
}

#[test]
fn refusals_are_retried_and_leave_no_trace() {
    let root = Node::Dir {
        path: String::from("/root"),
        refusals: vec![exhausted(), exhausted(), exhausted()],
        listing: Ok(vec![
            Ok(Node::File {
                path: String::from("/root/a.txt"),
                refusals: vec![exhausted(); 7],
                read: Ok(String::from("hello world")),
            }),
            Ok(Node::File {
                path: String::from("/root/secret"),
                refusals: vec![exhausted()],
                read: Err(denied()),
            }),
        ]),
    };
    assert!(root.is_settled());
    let report = search(&root, "hello");
    assert_eq!(report.matches, vec![String::from("/root/a.txt")]);
    assert_eq!(report.log, vec![Diagnostic::new(DiagnosticKind::PermissionDenied, "/root/secret")]);
}

#[test]
fn empty_query_matches_every_readable_file() {
    let root = dir(
        "/root",
        vec![
            file("/root/a.txt", "hello world"),
            file("/root/empty", ""),
            binary("/root/image.png"),
            Node::File {
                path: String::from("/root/secret"),
                refusals: vec![],
                read: Err(denied()),
            },
            dir("/root/sub", vec![file("/root/sub/c.txt", "needle")]),
            dir("/root/hollow", vec![]),
        ],
    );
    let report = search(&root, "");
    assert_eq!(
        report.matches,
        vec![
            String::from("/root/a.txt"),
            String::from("/root/empty"),
            String::from("/root/sub/c.txt"),
        ]
    );
}

#[test]
fn empty_file_matches_only_the_empty_query() {
    let root = dir("/root", vec![file("/root/empty", "")]);
    assert_eq!(search(&root, "").matches, vec![String::from("/root/empty")]);
    assert_eq!(search(&root, "a").matches, Vec::<String>::new());
}

#[test]
fn absent_query_matches_nothing() {
    let root = dir(
        "/root",
        vec![
            file("/root/a.txt", "hello world"),
            dir("/root/sub", vec![file("/root/sub/c.txt", "needle")]),
        ],
    );
    let report = search(&root, "absent");
    assert_eq!(report, Report { matches: vec![], log: vec![] });
}

#[test]
fn query_is_compared_as_utf8_text() {
    let root = dir(
        "/root",
        vec![file("/root/menu", "caf\u{e9} au lait"), file("/root/plain", "cafe au lait")],
    );
    assert_eq!(search(&root, "caf\u{e9}").matches, vec![String::from("/root/menu")]);
    assert_eq!(search(&root, "cafe").matches, vec![String::from("/root/plain")]);
}

#[test]
fn search_of_a_single_file() {
    assert_eq!(search(&file("/a.txt", "hello"), "ell").matches, vec![String::from("/a.txt")]);
    assert_eq!(search(&file("/a.txt", "hello"), "elo").matches, Vec::<String>::new());
}

#[test]
fn same_search_twice_reports_the_same_paths() {
    let tree = |refusals: usize| Node::Dir {
        path: String::from("/root"),
        refusals: vec![exhausted(); refusals],
        listing: Ok(vec![
            Ok(Node::File {
                path: String::from("/root/a.txt"),
                refusals: vec![exhausted(); 2 * refusals],
                read: Ok(String::from("hello world")),
            }),
            Ok(file("/root/b.txt", "goodbye")),
            Ok(dir("/root/sub", vec![file("/root/sub/c.txt", "hello")])),
        ]),
    };
    let first = search(&tree(0), "hello");
    let again = search(&tree(0), "hello");
    let refused = search(&tree(3), "hello");
    assert_eq!(sorted(first.matches.clone()), sorted(again.matches));
    assert_eq!(sorted(first.matches), sorted(refused.matches));
}

#[test]
fn no_path_is_reported_twice() {
    let root = dir(
        "/root",
        vec![
            file("/root/a", "xx"),
            file("/root/b", "xxx"),
            dir("/root/c", vec![file("/root/c/a", "x"), file("/root/c/b", "y")]),
        ],
    );
    let found = sorted(search(&root, "x").matches);
    let mut unique = found.clone();
    unique.dedup();
    assert_eq!(found, unique);
    assert_eq!(
        found,
        vec![String::from("/root/a"), String::from("/root/b"), String::from("/root/c/a")]
    );
}

#[test]
fn walk_adds_to_what_sink_and_log_hold() {
    let root = dir(
        "/root",
        vec![file("/root/a.txt", "hello"), broken("/root/gone", FailureKind::Other, "gone")],
    );
    let mut sink = vec![String::from("earlier")];
    let mut log = vec![Diagnostic::new(DiagnosticKind::TaskPanicked, "")];
    walk(&root, "hello", &mut sink, &mut log);
    assert_eq!(sink, vec![String::from("earlier"), String::from("/root/a.txt")]);
    assert_eq!(
        log,
        vec![
            Diagnostic::new(DiagnosticKind::TaskPanicked, ""),
            Diagnostic::new(DiagnosticKind::ReadFailed, "gone"),
        ]
    );
}

#[test]
fn tree_that_is_refused_for_ever_is_not_settled() {
    let stuck = Node::File { path: String::from("/a"), refusals: vec![], read: Err(exhausted()) };
    assert!(!stuck.is_settled());
    let stuck_dir =
        Node::Dir { path: String::from("/d"), refusals: vec![], listing: Err(exhausted()) };
    assert!(!stuck_dir.is_settled());
    assert!(!dir("/root", vec![file("/root/a", "x"), stuck]).is_settled());
}

#[test]
fn refusal_that_is_not_retried_is_not_settled() {
    let odd = Node::File {
        path: String::from("/a"),
        refusals: vec![denied()],
        read: Ok(String::from("x")),
    };
    assert!(!odd.is_settled());
    let odd_dir =
        Node::Dir { path: String::from("/d"), refusals: vec![denied()], listing: Ok(vec![]) };
    assert!(!odd_dir.is_settled());
}

#[test]
fn failed_entries_do_not_unsettle_a_tree() {
    let root = Node::Dir {
        path: String::from("/root"),
        refusals: vec![exhausted()],
        listing: Ok(vec![Err(exhausted()), Ok(file("/root/a", "x"))]),
    };
    assert!(root.is_settled());
    let report = search(&root, "x");
    assert_eq!(report.matches, vec![String::from("/root/a")]);
    assert_eq!(
        report.log,
        vec![Diagnostic::new(DiagnosticKind::EntryFailed, "Too many open files (os error 24)")]
    );
}

#[test]
fn attempt_meets_the_refusals_first() {
    let node = Node::File {
        path: String::from("/a"),
        refusals: vec![exhausted(), exhausted()],
        read: Ok(String::from("text")),
    };
    assert!(!node.is_dir());
    assert_eq!(node.attempt(0), Event::ReadFailed { failure: exhausted() });
    assert_eq!(node.attempt(1), Event::ReadFailed { failure: exhausted() });
    assert_eq!(node.attempt(2), Event::Loaded { contents: String::from("text") });
    assert_eq!(node.attempt(9), Event::Loaded { contents: String::from("text") });
}

#[test]
fn attempt_on_a_directory_shows_its_listing() {
    let node = Node::Dir {
        path: String::from("/d"),
        refusals: vec![exhausted()],
        listing: Ok(vec![Ok(file("/d/a", "x")), Err(denied()), Ok(dir("/d/sub", vec![]))]),
    };
    assert!(node.is_dir());
    assert_eq!(node.attempt(0), Event::ListFailed { failure: exhausted() });
    assert_eq!(
        node.attempt(1),
        Event::Listed {
            entries: vec![Ok(String::from("/d/a")), Err(denied()), Ok(String::from("/d/sub"))],
        }
    );
    let shut = Node::Dir { path: String::from("/d"), refusals: vec![], listing: Err(denied()) };
    assert_eq!(shut.attempt(0), Event::ListFailed { failure: denied() });
}

#[test]
fn order_of_the_entries_does_not_change_what_is_reported() {
    let a = || file("/root/a", "hello");
    let b = || file("/root/b", "goodbye");
    let c = || dir("/root/c", vec![file("/root/c/x", "hello"), file("/root/c/y", "hello")]);
    let forward = search(&dir("/root", vec![a(), b(), c()]), "hello");
    let backward = search(&dir("/root", vec![c(), b(), a()]), "hello");
    assert_eq!(
        forward.matches,
        vec![String::from("/root/a"), String::from("/root/c/x"), String::from("/root/c/y")]
    );
    assert_eq!(
        backward.matches,
        vec![String::from("/root/c/x"), String::from("/root/c/y"), String::from("/root/a")]
    );
    assert_eq!(sorted(forward.matches), sorted(backward.matches));
}
