//! A tree of files and directories held in memory, with what each attempt to
//! open a node meets, and the walk over it that drives one task per node.

use crate::diagnostic::{lemma_notices_add, notices, Diagnostic, Notice};
use crate::failure::{listing_verdict, reading_verdict, Failure, Verdict};
use crate::task::{
    entry_notices, entry_path, failure_notice, found_paths, Action, ActionView, Event, Phase, Task,
};
use crate::text::{lemma_texts_push, occurs, texts};
use vstd::prelude::*;
use vstd::std_specs::vec::axiom_vec_index_decreases;
use vstd::string::*;

verus! {

/// A node of the tree. `refusals` are the failures that the first attempts
/// to open the node meet, one each; the attempt after them meets what
/// `read` or `listing` holds.
#[derive(Debug, PartialEq, Eq)]
pub enum Node {
    /// Anything that is no directory: its text, or why it cannot be read.
    File { path: String, refusals: Vec<Failure>, read: Result<String, Failure> },
    /// A directory: its entries, or why it cannot be listed. An entry is a
    /// node, or the failure that stood in its place in the listing.
    Dir {
        path: String,
        refusals: Vec<Failure>,
        listing: Result<Vec<Result<Node, Failure>>, Failure>,
    },
}

/// What a search has found and logged.
#[derive(Debug, PartialEq, Eq)]
pub struct Report {
    pub matches: Vec<String>,
    pub log: Vec<Diagnostic>,
}

/// The diagnostic that a verdict on a failure at `path` leaves in the log.
pub open spec fn verdict_notices(verdict: Verdict, path: Seq<char>, failure: Failure) -> Seq<
    Notice,
> {
    match verdict {
        Verdict::Report(kind) => seq![failure_notice(kind, path, failure)],
        _ => Seq::empty(),
    }
}

/// What the listing of a directory with these entries shows: a path for each
/// node, and the failures as they are.
pub open spec fn outline(entries: Seq<Result<Node, Failure>>) -> Seq<Result<String, Failure>> {
    entries.map_values(
        |entry: Result<Node, Failure>|
            match entry {
                Ok(child) => Ok(*child.path()),
                Err(failure) => Err(failure),
            },
    )
}

/// The paths that a search for `query` reports below the first `upto`
/// entries, in the entries' order.
pub open spec fn matches_among(
    entries: Seq<Result<Node, Failure>>,
    upto: nat,
    query: Seq<char>,
) -> Seq<Seq<char>>
    decreases entries, upto,
{
    if upto == 0 || upto > entries.len() {
        Seq::empty()
    } else {
        matches_among(entries, (upto - 1) as nat, query) + (match entries[upto - 1] {
            Ok(child) => child.matches(query),
            Err(_) => Seq::empty(),
        })
    }
}

/// The diagnostics that a search logs below the first `upto` entries, in the
/// entries' order.
pub open spec fn diagnosed_among(entries: Seq<Result<Node, Failure>>, upto: nat) -> Seq<Notice>
    decreases entries, upto,
{
    if upto == 0 || upto > entries.len() {
        Seq::empty()
    } else {
        diagnosed_among(entries, (upto - 1) as nat) + (match entries[upto - 1] {
            Ok(child) => child.diagnosed(),
            Err(_) => Seq::empty(),
        })
    }
}

/// How many of the first `upto` entries are nodes.
pub open spec fn nodes_among(entries: Seq<Result<Node, Failure>>, upto: nat) -> nat
    decreases upto,
{
    if upto == 0 || upto > entries.len() {
        0
    } else {
        nodes_among(entries, (upto - 1) as nat) + if entries[upto - 1] is Ok {
            1nat
        } else {
            0nat
        }
    }
}

/// Among more entries there are no fewer nodes, and never more nodes than
/// entries.
pub proof fn lemma_nodes_among_grows(entries: Seq<Result<Node, Failure>>, from: nat, upto: nat)
    requires
        from <= upto <= entries.len(),
    ensures
        nodes_among(entries, from) <= nodes_among(entries, upto) <= upto,
    decreases upto,
{
    if upto > 0 {
        if from < upto {
            lemma_nodes_among_grows(entries, from, (upto - 1) as nat);
        } else {
            lemma_nodes_among_grows(entries, (upto - 1) as nat, (upto - 1) as nat);
        }
    }
}

/// A listing shows as many paths as there are nodes among the entries.
pub proof fn lemma_found_paths_count(entries: Seq<Result<Node, Failure>>, upto: nat)
    requires
        upto <= entries.len(),
    ensures
        found_paths(outline(entries).take(upto as int)).len() == nodes_among(entries, upto),
        upto == entries.len() ==> found_paths(outline(entries)).len() == nodes_among(entries, upto),
    decreases upto,
{
    let shown = outline(entries);
    if upto == 0 {
        assert(shown.take(0) =~= Seq::empty());
    } else {
        lemma_found_paths_count(entries, (upto - 1) as nat);
        shown.lemma_filter_map_take_succ(entry_path(), upto - 1);
    }
    if upto == entries.len() {
        assert(shown.take(upto as int) =~= shown);
    }
}

/// Where no node is left among the entries from `from` on, nothing more is
/// reported or logged below them.
pub proof fn lemma_nothing_behind_the_last_node(
    entries: Seq<Result<Node, Failure>>,
    from: nat,
    upto: nat,
    query: Seq<char>,
)
    requires
        from <= upto <= entries.len(),
        nodes_among(entries, from) == nodes_among(entries, upto),
    ensures
        matches_among(entries, upto, query) == matches_among(entries, from, query),
        diagnosed_among(entries, upto) == diagnosed_among(entries, from),
    decreases upto,
{
    if from < upto {
        let before = (upto - 1) as nat;
        lemma_nodes_among_grows(entries, from, before);
        lemma_nothing_behind_the_last_node(entries, from, before, query);
        assert(matches_among(entries, upto, query) =~= matches_among(entries, before, query));
        assert(diagnosed_among(entries, upto) =~= diagnosed_among(entries, before));
    }
}

impl Node {
    /// The node's path.
    pub open spec fn spec_path(&self) -> &String {
        match self {
            Node::File { path, .. } => path,
            Node::Dir { path, .. } => path,
        }
    }

    /// The node's path.
    #[verifier::when_used_as_spec(spec_path)]
    pub fn path(&self) -> (path: &String)
        ensures
            path == self.spec_path(),
    {
        match self {
            Node::File { path, .. } => path,
            Node::Dir { path, .. } => path,
        }
    }

    /// The failures that the first attempts to open the node meet.
    pub open spec fn refusals(self) -> Seq<Failure> {
        match self {
            Node::File { refusals, .. } => refusals@,
            Node::Dir { refusals, .. } => refusals@,
        }
    }

    /// The verdict of the node's task on a failure to open it.
    pub open spec fn verdict(self, failure: Failure) -> Verdict {
        match self {
            Node::File { .. } => reading_verdict(failure),
            Node::Dir { .. } => listing_verdict(failure),
        }
    }

    /// No operation in the tree is refused for ever: each refusal is one that
    /// a task retries, and what comes after the refusals is not.
    pub open spec fn settles(self) -> bool
        decreases self,
    {
        &&& forall|k: int|
            0 <= k < self.refusals().len() ==> self.verdict(#[trigger] self.refusals()[k])
                == Verdict::Retry
        &&& match self {
            Node::File { read, .. } => read matches Err(failure) ==> reading_verdict(failure)
                != Verdict::Retry,
            Node::Dir { listing, .. } => match listing {
                Err(failure) => listing_verdict(failure) != Verdict::Retry,
                Ok(entries) => forall|i: int|
                    0 <= i < entries@.len() ==> (#[trigger] entries@[i] matches Ok(child)
                        ==> child.settles()),
            },
        }
    }

    /// The node is a file that can be read and whose text contains `query`.
    pub open spec fn holds(self, query: Seq<char>) -> bool {
        self matches Node::File { read: Ok(content), .. } && occurs(content@, query)
    }

    /// The paths that a search for `query` reports: the node's own if it
    /// is a file that holds the query, and for a directory that can be listed
    /// those of its entries, in their order.
    pub open spec fn matches(self, query: Seq<char>) -> Seq<Seq<char>>
        decreases self,
    {
        match self {
            Node::File { path, .. } => if self.holds(query) {
                seq![path@]
            } else {
                Seq::empty()
            },
            Node::Dir { listing, .. } => match listing {
                Ok(entries) => matches_among(entries@, entries@.len(), query),
                Err(_) => Seq::empty(),
            },
        }
    }

    /// The diagnostics that a search logs: for a node that cannot be opened
    /// the one its verdict asks for; for a directory that can, one for each
    /// entry that failed, then those of its entries, in their order.
    pub open spec fn diagnosed(self) -> Seq<Notice>
        decreases self,
    {
        match self {
            Node::File { path, read, .. } => match read {
                Ok(_) => Seq::empty(),
                Err(failure) => verdict_notices(reading_verdict(failure), path@, failure),
            },
            Node::Dir { path, listing, .. } => match listing {
                Ok(entries) => entry_notices(outline(entries@)) + diagnosed_among(
                    entries@,
                    entries@.len(),
                ),
                Err(failure) => verdict_notices(listing_verdict(failure), path@, failure),
            },
        }
    }

    /// What the attempt to open the node meets after `tries` earlier ones:
    /// a refusal while there are any left, then the text or the listing, or
    /// the failure in its place.
    pub open spec fn meets(self, tries: nat, event: Event) -> bool {
        if tries < self.refusals().len() {
            match self {
                Node::File { .. } => event == (Event::ReadFailed {
                    failure: self.refusals()[tries as int],
                }),
                Node::Dir { .. } => event == (Event::ListFailed {
                    failure: self.refusals()[tries as int],
                }),
            }
        } else {
            match self {
                Node::File { read, .. } => match read {
                    Ok(content) => event == (Event::Loaded { contents: content }),
                    Err(failure) => event == (Event::ReadFailed { failure }),
                },
                Node::Dir { listing, .. } => match listing {
                    Ok(entries) => event matches Event::Listed { entries: shown } && shown@
                        == outline(entries@),
                    Err(failure) => event == (Event::ListFailed { failure }),
                },
            }
        }
    }

    /// Whether the node is a directory.
    pub fn is_dir(&self) -> (yes: bool)
        ensures
            yes == (self is Dir),
    {
        match self {
            Node::File { .. } => false,
            Node::Dir { .. } => true,
        }
    }

    /// What the attempt to open the node meets after `tries` earlier ones.
    pub fn attempt(&self, tries: usize) -> (event: Event)
        ensures
            self.meets(tries as nat, event),
    {
        match self {
            Node::File { refusals, read, .. } => {
                if tries < refusals.len() {
                    Event::ReadFailed { failure: refusals[tries].clone() }
                } else {
                    match read {
                        Ok(content) => Event::Loaded { contents: content.clone() },
                        Err(failure) => Event::ReadFailed { failure: failure.clone() },
                    }
                }
            },
            Node::Dir { refusals, listing, .. } => {
                if tries < refusals.len() {
                    Event::ListFailed { failure: refusals[tries].clone() }
                } else {
                    match listing {
                        Ok(entries) => Event::Listed { entries: show(entries) },
                        Err(failure) => Event::ListFailed { failure: failure.clone() },
                    }
                }
            },
        }
    }
}

/// How far an action is from the end of its task.
spec fn rank(action: ActionView) -> nat {
    match action {
        ActionView::Probe => 3,
        ActionView::List { .. } => 2,
        ActionView::Read { .. } => 2,
        ActionView::Spawn { .. } => 1,
        ActionView::Join { .. } => 1,
        ActionView::Send { .. } => 1,
        ActionView::Finish => 0,
    }
}

/// How often at most the task asks for an action like `action` again.
spec fn slack(node: Node, action: ActionView, tries: nat) -> int {
    match action {
        ActionView::List { .. } => node.refusals().len() - tries,
        ActionView::Read { .. } => node.refusals().len() - tries,
        ActionView::Spawn { children } => children.len() as int,
        ActionView::Join { outstanding } => outstanding as int,
        _ => 0,
    }
}

/// The task of a directory waits for `outstanding` children, and the walk
/// has been below the entries before `next`.
spec fn waiting(
    node: Node,
    query: Seq<char>,
    phase: Phase,
    outstanding: nat,
    next: nat,
    sunk: Seq<Seq<char>>,
    logged: Seq<Notice>,
) -> bool {
    &&& node matches Node::Dir { listing: Ok(entries), .. }
    &&& phase matches Phase::Joining { outstanding: counted }
    &&& counted == outstanding
    &&& outstanding >= 1
    &&& next <= entries@.len()
    &&& nodes_among(entries@, next) + outstanding == nodes_among(entries@, entries@.len())
    &&& sunk == matches_among(entries@, next, query)
    &&& logged == entry_notices(outline(entries@)) + diagnosed_among(entries@, next)
}

/// The task of `node` stands where it should: it is in `phase`, has asked
/// for `action` after `tries` attempts, and the walk has so far been below
/// `next` entries, reported `sunk` and logged `logged` for the node.
spec fn on_course(
    node: Node,
    query: Seq<char>,
    phase: Phase,
    action: ActionView,
    tries: nat,
    next: nat,
    sunk: Seq<Seq<char>>,
    logged: Seq<Notice>,
) -> bool {
    match action {
        ActionView::Probe => {
            &&& phase == Phase::Probing
            &&& tries == 0
            &&& next == 0
            &&& sunk == Seq::<Seq<char>>::empty()
            &&& logged == Seq::<Notice>::empty()
        },
        ActionView::List { .. } => {
            &&& node is Dir
            &&& phase == Phase::Listing
            &&& next == 0
            &&& sunk == Seq::<Seq<char>>::empty()
            &&& logged == Seq::<Notice>::empty()
        },
        ActionView::Read { .. } => {
            &&& node is File
            &&& phase == Phase::Reading
            &&& sunk == Seq::<Seq<char>>::empty()
            &&& logged == Seq::<Notice>::empty()
        },
        ActionView::Spawn { children } => {
            &&& node matches Node::Dir { listing: Ok(entries), .. }
            &&& children == found_paths(outline(entries@))
            &&& next == 0
            &&& waiting(node, query, phase, children.len(), next, sunk, logged)
        },
        ActionView::Join { outstanding } => waiting(
            node,
            query,
            phase,
            outstanding as nat,
            next,
            sunk,
            logged,
        ),
        ActionView::Send { path } => {
            &&& node is File
            &&& node.holds(query)
            &&& path == node.path()@
            &&& phase == Phase::Sending
            &&& sunk == Seq::<Seq<char>>::empty()
            &&& logged == Seq::<Notice>::empty()
        },
        ActionView::Finish => {
            &&& phase == Phase::Finished
            &&& sunk == node.matches(query)
            &&& logged == node.diagnosed()
        },
    }
}

impl Node {
    /// How many refusals the node has in store.
    fn refusal_count(&self) -> (count: usize)
        ensures
            count == self.refusals().len(),
    {
        match self {
            Node::File { refusals, .. } => refusals.len(),
            Node::Dir { refusals, .. } => refusals.len(),
        }
    }

    /// Walks the next entry of a directory that is a node, past the failed
    /// entries before it, and says where the entries behind it begin.
    fn walk_next(
        &self,
        from: usize,
        query: &str,
        sink: &mut Vec<String>,
        log: &mut Vec<Diagnostic>,
    ) -> (next: usize)
        requires
            self.settles(),
            self matches Node::Dir { listing: Ok(entries), .. } && from <= entries@.len()
                && nodes_among(entries@, from as nat) < nodes_among(entries@, entries@.len()),
        ensures
            self matches Node::Dir { listing: Ok(entries), .. } && {
                &&& from < next <= entries@.len()
                &&& entries@[next - 1] matches Ok(child)
                &&& nodes_among(entries@, next as nat) == nodes_among(entries@, from as nat) + 1
                &&& texts(final(sink)@) == texts(old(sink)@) + child.matches(query@)
                &&& notices(final(log)@) == notices(old(log)@) + child.diagnosed()
                &&& matches_among(entries@, next as nat, query@) == matches_among(
                    entries@,
                    from as nat,
                    query@,
                ) + child.matches(query@)
                &&& diagnosed_among(entries@, next as nat) == diagnosed_among(
                    entries@,
                    from as nat,
                ) + child.diagnosed()
            },
        decreases *self, 0nat,
    {
        if let Node::Dir { listing: Ok(entries), .. } = self {
            let mut at: usize = from;
            while at < entries.len()
                invariant
                    from <= at <= entries.len(),
                    decreases_to!(*self => *entries),
                    self matches Node::Dir { listing: Ok(own), .. } && own == *entries,
                    forall|j: int|
                        0 <= j < entries@.len() ==> (#[trigger] entries@[j] matches Ok(child)
                            ==> child.settles()),
                    nodes_among(entries@, at as nat) == nodes_among(entries@, from as nat),
                    matches_among(entries@, at as nat, query@) == matches_among(
                        entries@,
                        from as nat,
                        query@,
                    ),
                    diagnosed_among(entries@, at as nat) == diagnosed_among(entries@, from as nat),
                    sink@ == old(sink)@,
                    log@ == old(log)@,
                decreases entries.len() - at,
            {
                match &entries[at] {
                    Ok(child) => {
                        proof {
                            axiom_vec_index_decreases(*entries, at as int);
                        }
                        walk(child, query, sink, log);
                        return at + 1;
                    },
                    Err(_) => {
                        assert(matches_among(entries@, (at + 1) as nat, query@) =~= matches_among(
                            entries@,
                            at as nat,
                            query@,
                        ));
                        assert(diagnosed_among(entries@, (at + 1) as nat) =~= diagnosed_among(
                            entries@,
                            at as nat,
                        ));
                        at += 1;
                    },
                }
            }
        }
        from
    }
}

/// Searches the tree below `node` for `query`, one node after the other,
/// each through a task of its own. The paths of the files that hold the
/// query are added to `sink` and the diagnostics to `log`, both in the order
/// of the tree. Refusals are retried until the node opens, and leave no
/// trace.
pub fn walk(node: &Node, query: &str, sink: &mut Vec<String>, log: &mut Vec<Diagnostic>)
    requires
        node.settles(),
    ensures
        texts(final(sink)@) == texts(old(sink)@) + node.matches(query@),
        notices(final(log)@) == notices(old(log)@) + node.diagnosed(),
    decreases *node, 1nat,
{
    let (mut task, mut action) = Task::start(node.path().clone(), String::from_str(query));
    let mut tries: usize = 0;
    let mut next: usize = 0;
    let ghost mut sunk: Seq<Seq<char>> = Seq::empty();
    let ghost mut logged: Seq<Notice> = Seq::empty();
    assert(texts(sink@) =~= texts(old(sink)@) + sunk);
    assert(notices(log@) =~= notices(old(log)@) + logged);
    loop
        invariant
            node.settles(),
            task@.path == node.path()@,
            task@.query == query@,
            tries <= node.refusals().len(),
            texts(sink@) == texts(old(sink)@) + sunk,
            notices(log@) == notices(old(log)@) + logged,
            on_course(*node, query@, task@.phase, action@, tries as nat, next as nat, sunk, logged),
        decreases rank(action@), slack(*node, action@, tries as nat),
    {
        let event = match action {
            Action::Finish => {
                return ;
            },
            Action::Probe => Event::Probed { is_dir: node.is_dir() },
            Action::List { .. } | Action::Read { .. } => {
                let event = node.attempt(tries);
                if tries < node.refusal_count() {
                    tries += 1;
                }
                event
            },
            Action::Spawn { .. } | Action::Join { .. } => {
                let ghost before = next as nat;
                next = node.walk_next(next, query, sink, log);
                proof {
                    let entries = node->listing->Ok_0@;
                    let child = entries[next - 1]->Ok_0;
                    assert(texts(sink@) =~= texts(old(sink)@) + (sunk + child.matches(query@)));
                    assert(notices(log@) =~= notices(old(log)@) + (logged + child.diagnosed()));
                    assert(logged + child.diagnosed() =~= entry_notices(outline(entries)) + (
                    diagnosed_among(entries, before) + child.diagnosed()));
                    sunk = sunk + child.matches(query@);
                    logged = logged + child.diagnosed();
                    if nodes_among(entries, next as nat) == nodes_among(entries, entries.len()) {
                        lemma_nothing_behind_the_last_node(
                            entries,
                            next as nat,
                            entries.len(),
                            query@,
                        );
                    }
                }
                Event::ChildEnded { panicked: false }
            },
            Action::Send { path } => {
                proof {
                    lemma_texts_push(sink@, path);
                    sunk = seq![path@];
                    assert(texts(sink@.push(path)) =~= texts(old(sink)@) + sunk);
                }
                sink.push(path);
                Event::Sent { delivered: true }
            },
        };
        proof {
            if let Node::Dir { listing: Ok(entries), .. } = node {
                let shown = entry_notices(outline(entries@));
                lemma_found_paths_count(entries@, entries@.len());
                lemma_nodes_among_grows(entries@, 0, entries@.len());
                if nodes_among(entries@, entries@.len()) == 0 {
                    lemma_nothing_behind_the_last_node(entries@, 0, entries@.len(), query@);
                }
                assert(entries@.len() == entries.len());
                assert(shown + Seq::<Notice>::empty() =~= shown);
                assert(Seq::<Notice>::empty() + shown =~= shown);
            }
            assert(logged + Seq::<Notice>::empty() =~= logged);
        }
        match task.step(event) {
            Some(reaction) => {
                let mut reaction = reaction;
                proof {
                    lemma_notices_add(log@, reaction.log@);
                    assert(notices(log@ + reaction.log@) =~= notices(old(log)@) + (logged
                        + reaction@.log));
                    logged = logged + reaction@.log;
                }
                log.append(&mut reaction.log);
                action = reaction.action;
            },
            None => {
                return ;
            },
        }
    }
}

/// Searches the tree below `root` for `query` and gives what was found and
/// what was logged.
pub fn search(root: &Node, query: &str) -> (report: Report)
    requires
        root.settles(),
    ensures
        texts(report.matches@) == root.matches(query@),
        notices(report.log@) == root.diagnosed(),
{
    let mut matches: Vec<String> = Vec::new();
    let mut log: Vec<Diagnostic> = Vec::new();
    walk(root, query, &mut matches, &mut log);
    assert(texts(matches@) =~= root.matches(query@));
    assert(notices(log@) =~= root.diagnosed());
    Report { matches, log }
}

impl Node {
    /// The verdict of the node's task on a failure to open it.
    fn judge(&self, failure: &Failure) -> (verdict: Verdict)
        ensures
            verdict == self.verdict(*failure),
    {
        match self {
            Node::File { .. } => failure.on_reading(),
            Node::Dir { .. } => failure.on_listing(),
        }
    }

    /// Whether the node's task retries each of the node's refusals.
    fn retries_its_refusals(&self) -> (yes: bool)
        ensures
            yes == forall|k: int|
                0 <= k < self.refusals().len() ==> self.verdict(#[trigger] self.refusals()[k])
                    == Verdict::Retry,
    {
        let refusals = match self {
            Node::File { refusals, .. } => refusals,
            Node::Dir { refusals, .. } => refusals,
        };
        let mut k: usize = 0;
        while k < refusals.len()
            invariant
                k <= refusals.len(),
                refusals@ == self.refusals(),
                forall|j: int|
                    0 <= j < k ==> self.verdict(#[trigger] self.refusals()[j]) == Verdict::Retry,
            decreases refusals.len() - k,
        {
            if self.judge(&refusals[k]) != Verdict::Retry {
                return false;
            }
            k += 1;
        }
        true
    }
}

impl Node {
    /// Whether no operation in the tree is refused for ever: the condition
    /// under which a walk comes to an end.
    pub fn is_settled(&self) -> (yes: bool)
        ensures
            yes == self.settles(),
        decreases *self,
    {
        if !self.retries_its_refusals() {
            return false;
        }
        match self {
            Node::File { read, .. } => {
                match read {
                    Ok(_) => true,
                    Err(failure) => failure.on_reading() != Verdict::Retry,
                }
            },
            Node::Dir { listing, .. } => {
                match listing {
                    Err(failure) => failure.on_listing() != Verdict::Retry,
                    Ok(entries) => {
                        let mut i: usize = 0;
                        while i < entries.len()
                            invariant
                                i <= entries.len(),
                                decreases_to!(*self => *entries),
                                self.settles() <==> forall|j: int|
                                    0 <= j < entries@.len() ==> (#[trigger] entries@[j] matches Ok(
                                        child,
                                    ) ==> child.settles()),
                                forall|j: int|
                                    0 <= j < i ==> (#[trigger] entries@[j] matches Ok(child)
                                        ==> child.settles()),
                            decreases entries.len() - i,
                        {
                            if let Ok(child) = &entries[i] {
                                proof {
                                    axiom_vec_index_decreases(*entries, i as int);
                                }
                                if !child.is_settled() {
                                    assert(entries@[i as int] matches Ok(child)
                                        && !child.settles());
                                    return false;
                                }
                            }
                            i += 1;
                        }
                        true
                    },
                }
            },
        }
    }
}

/// What the listing of a directory with these entries shows.
fn show(entries: &Vec<Result<Node, Failure>>) -> (shown: Vec<Result<String, Failure>>)
    ensures
        shown@ == outline(entries@),
{
    let mut shown: Vec<Result<String, Failure>> = Vec::new();
    let mut i: usize = 0;
    while i < entries.len()
        invariant
            i <= entries.len(),
            shown@ =~= outline(entries@.take(i as int)),
        decreases entries.len() - i,
    {
        let entry = match &entries[i] {
            Ok(child) => Ok(child.path().clone()),
            Err(failure) => Err(failure.clone()),
        };
        shown.push(entry);
        i += 1;
    }
    assert(entries@.take(i as int) =~= entries@);
    shown
}

} // verus!
