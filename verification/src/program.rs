//! A whole run of the program on a tree held in memory: the lines it prints
//! and the status it ends with.

use crate::config::{parsed, Config, ParseError};
use crate::diagnostic::{notices, Diagnostic, Notice};
use crate::reach::lemma_absent_query_matches_nothing;
use crate::snapshot::{search, Node};
use crate::text::{lemma_texts_push, texts};
use vstd::prelude::*;
use vstd::string::*;

verus! {

/// How a run ended: what it printed, line by line, and its exit status.
#[derive(Debug, PartialEq, Eq)]
pub struct Outcome {
    pub lines: Vec<String>,
    pub exit_code: i32,
}

/// The line that reports an error of the command line.
pub open spec fn error_line(error: ParseError) -> Seq<char> {
    "Error during argument parsing: "@ + error.text()
}

/// The lines that the diagnostics are printed as, in their order.
pub open spec fn printed(log: Seq<Notice>) -> Seq<Seq<char>> {
    log.map_values(|notice: Notice| notice.line())
}

/// What a run prints and the status it ends with. `root` is what the path
/// on the command line resolves to, if it resolves. A command line that
/// lacks an argument ends the run with status 1 before anything is
/// resolved, and a path that resolves to nothing ends it with status 1
/// before anything is searched; each prints its error and nothing else.
/// Every other run ends with status 0, whatever was logged: it prints the
/// diagnostics of the walk, then the path of each file that holds the
/// query.
pub open spec fn outcome_of(args: Seq<String>, root: Option<Node>) -> (Seq<Seq<char>>, int) {
    match parsed(args) {
        Err(error) => (seq![error_line(error)], 1),
        Ok((_, query)) => match root {
            None => (seq![error_line(ParseError::InvalidPath)], 1),
            Some(node) => (printed(node.diagnosed()) + node.matches(query), 0),
        },
    }
}

/// What `root` is as a value.
pub open spec fn shown(root: Option<&Node>) -> Option<Node> {
    match root {
        Some(node) => Some(*node),
        None => None,
    }
}

/// A command line that lacks an argument ends the run with status 1 and one
/// line of error, whatever the file system holds: nothing of it is looked
/// at.
pub proof fn lemma_missing_argument_ends_the_run(
    args: Seq<String>,
    root: Option<Node>,
    other_root: Option<Node>,
)
    requires
        args.len() < 3,
    ensures
        outcome_of(args, root).1 == 1,
        outcome_of(args, root).0.len() == 1,
        outcome_of(args, root) == outcome_of(args, other_root),
{
}

/// A path that resolves to nothing ends the run with status 1 and one line
/// of error.
pub proof fn lemma_unresolved_path_ends_the_run(args: Seq<String>)
    ensures
        outcome_of(args, None).1 == 1,
        outcome_of(args, None).0.len() == 1,
{
}

/// A run that searches ends with status 0, and where no file that the walk
/// reaches holds the query it prints the diagnostics and no path.
pub proof fn lemma_absent_query_prints_no_path(args: Seq<String>, root: Node)
    requires
        args.len() >= 3,
        forall|i: int|
            0 <= i < root.files().len() ==> !(#[trigger] root.files()[i]).holds(args[2]@),
    ensures
        outcome_of(args, Some(root)) == (printed(root.diagnosed()), 0int),
{
    lemma_absent_query_matches_nothing(root, args[2]@);
    assert(printed(root.diagnosed()) + Seq::<Seq<char>>::empty() =~= printed(root.diagnosed()));
}

/// The run that ends on an error of the command line.
fn refuse(error: ParseError) -> (outcome: Outcome)
    ensures
        texts(outcome.lines@) == seq![error_line(error)],
        outcome.exit_code == 1,
{
    let mut lines: Vec<String> = Vec::new();
    let line = error.render();
    proof {
        lemma_texts_push(lines@, line);
        assert(texts(lines@) =~= Seq::<Seq<char>>::empty());
        assert(Seq::<Seq<char>>::empty().push(line@) =~= seq![line@]);
    }
    lines.push(line);
    Outcome { lines, exit_code: error.exit_code() }
}

/// The lines that the diagnostics are printed as.
fn print(log: &Vec<Diagnostic>) -> (lines: Vec<String>)
    ensures
        texts(lines@) == printed(notices(log@)),
{
    let mut lines: Vec<String> = Vec::new();
    let mut i: usize = 0;
    while i < log.len()
        invariant
            i <= log.len(),
            texts(lines@) =~= printed(notices(log@.take(i as int))),
        decreases log.len() - i,
    {
        let line = log[i].render();
        proof {
            lemma_texts_push(lines@, line);
            assert(log@.take(i + 1) =~= log@.take(i as int).push(log@[i as int]));
        }
        lines.push(line);
        i += 1;
    }
    assert(log@.take(i as int) =~= log@);
    lines
}

/// Runs the program with the given command line on a file system in which
/// the path resolves to `root`, or to nothing.
pub fn run(args: Vec<String>, root: Option<&Node>) -> (outcome: Outcome)
    requires
        root matches Some(node) ==> node.settles(),
    ensures
        texts(outcome.lines@) == outcome_of(args@, shown(root)).0,
        outcome.exit_code == outcome_of(args@, shown(root)).1,
{
    let request = match Config::parse(args) {
        Ok(request) => request,
        Err(error) => {
            return refuse(error);
        },
    };
    let resolved = match root {
        Some(node) => Some(node.path().clone()),
        None => None,
    };
    let config = match request.resolve(resolved) {
        Ok(config) => config,
        Err(error) => {
            return refuse(error);
        },
    };
    match root {
        Some(node) => {
            let mut report = search(node, config.query.as_str());
            let mut lines = print(&report.log);
            proof {
                assert(texts(lines@ + report.matches@) =~= texts(lines@) + texts(report.matches@));
            }
            lines.append(&mut report.matches);
            Outcome { lines, exit_code: 0 }
        },
        None => refuse(ParseError::InvalidPath),
    }
}

} // verus!
