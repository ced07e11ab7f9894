//! The files that a walk reaches, and the proofs that a search reports
//! those among them that hold the query: each of them once, and nothing
//! else.

use crate::failure::Failure;
use crate::snapshot::{matches_among, Node};
use crate::text::lemma_empty_occurs;
use vstd::prelude::*;
use vstd::string::*;

verus! {

/// The files that a walk reaches through the first `upto` entries, in the
/// entries' order.
pub open spec fn files_among(entries: Seq<Result<Node, Failure>>, upto: nat) -> Seq<Node>
    decreases entries, upto,
{
    if upto == 0 || upto > entries.len() {
        Seq::empty()
    } else {
        files_among(entries, (upto - 1) as nat) + (match entries[upto - 1] {
            Ok(child) => child.files(),
            Err(_) => Seq::empty(),
        })
    }
}

impl Node {
    /// The files that a walk from this node reaches, in the order of the
    /// tree: the node itself if it is a file, and what lies below the
    /// entries of a directory that can be listed.
    pub open spec fn files(self) -> Seq<Node>
        decreases self,
    {
        match self {
            Node::File { .. } => seq![self],
            Node::Dir { listing, .. } => match listing {
                Ok(entries) => files_among(entries@, entries@.len()),
                Err(_) => Seq::empty(),
            },
        }
    }

    /// The node is a file whose text can be read.
    pub open spec fn is_readable(self) -> bool {
        self matches Node::File { read: Ok(_), .. }
    }
}

/// The test for a file that holds `query`.
pub open spec fn holding(query: Seq<char>) -> spec_fn(Node) -> bool {
    |file: Node| file.holds(query)
}

/// The test for a file whose text can be read.
pub open spec fn readable() -> spec_fn(Node) -> bool {
    |file: Node| file.is_readable()
}

/// The text of a node's path.
pub open spec fn path_text() -> spec_fn(Node) -> Seq<char> {
    |file: Node| file.path()@
}

/// The paths of the given files, in their order.
pub open spec fn paths(files: Seq<Node>) -> Seq<Seq<char>> {
    files.map_values(path_text())
}

/// One path for each of the given files that holds `query`, in their order.
pub open spec fn reported(files: Seq<Node>, query: Seq<char>) -> Seq<Seq<char>> {
    paths(files.filter(holding(query)))
}

/// Of two lists of files put together is reported what is reported of the
/// first, then what is reported of the second.
pub proof fn lemma_reported_add(first: Seq<Node>, second: Seq<Node>, query: Seq<char>)
    ensures
        reported(first + second, query) == reported(first, query) + reported(second, query),
{
    Seq::filter_distributes_over_add(first, second, holding(query));
    assert(paths(first.filter(holding(query)) + second.filter(holding(query))) =~= paths(
        first.filter(holding(query)),
    ) + paths(second.filter(holding(query))));
}

/// Of a single file its path is reported if it holds the query, and nothing
/// if it does not.
pub proof fn lemma_reported_single(file: Node, query: Seq<char>)
    ensures
        reported(seq![file], query) == if file.holds(query) {
            seq![file.path()@]
        } else {
            Seq::empty()
        },
{
    let none = Seq::<Node>::empty();
    none.lemma_filter_len(holding(query));
    none.lemma_filter_push(file, holding(query));
    assert(none.push(file) =~= seq![file]);
    assert(none.filter(holding(query)) =~= none);
    assert(paths(none.push(file)) =~= seq![file.path()@]);
    assert(paths(none) =~= Seq::<Seq<char>>::empty());
}

/// A search below the first `upto` entries reports one path for each file
/// reached through them that holds the query.
pub proof fn lemma_matches_among_reported(
    entries: Seq<Result<Node, Failure>>,
    upto: nat,
    query: Seq<char>,
)
    ensures
        matches_among(entries, upto, query) == reported(files_among(entries, upto), query),
    decreases entries, upto,
{
    if upto == 0 || upto > entries.len() {
        Seq::<Node>::empty().lemma_filter_len(holding(query));
        assert(reported(Seq::<Node>::empty(), query) =~= Seq::<Seq<char>>::empty());
    } else {
        lemma_matches_among_reported(entries, (upto - 1) as nat, query);
        let before = files_among(entries, (upto - 1) as nat);
        match entries[upto - 1] {
            Ok(child) => {
                lemma_matches_reported(child, query);
                lemma_reported_add(before, child.files(), query);
            },
            Err(_) => {
                assert(before + Seq::<Node>::empty() =~= before);
                assert(matches_among(entries, (upto - 1) as nat, query) + Seq::<Seq<char>>::empty()
                    =~= matches_among(entries, (upto - 1) as nat, query));
            },
        }
    }
}

/// A search reports one path for each file that the walk reaches and that
/// holds the query, in the order of the tree.
pub proof fn lemma_matches_reported(node: Node, query: Seq<char>)
    ensures
        node.matches(query) == reported(node.files(), query),
    decreases node,
{
    match node {
        Node::File { .. } => {
            lemma_reported_single(node, query);
        },
        Node::Dir { listing, .. } => match listing {
            Ok(entries) => {
                lemma_matches_among_reported(entries@, entries@.len(), query);
            },
            Err(_) => {
                Seq::<Node>::empty().lemma_filter_len(holding(query));
                assert(reported(Seq::<Node>::empty(), query) =~= Seq::<Seq<char>>::empty());
            },
        },
    }
}

/// A path is reported if and only if it is that of a file which the walk
/// reaches and which holds the query: nothing is left out, and nothing is
/// made up.
pub proof fn lemma_match_iff_held(node: Node, query: Seq<char>, path: Seq<char>)
    ensures
        node.matches(query).contains(path) <==> exists|i: int|
            0 <= i < node.files().len() && (#[trigger] node.files()[i]).holds(query)
                && node.files()[i].path()@ == path,
{
    lemma_matches_reported(node, query);
    let files = node.files();
    let kept = files.filter(holding(query));
    if node.matches(query).contains(path) {
        let k = choose|k: int| 0 <= k < paths(kept).len() && paths(kept)[k] == path;
        files.lemma_filter_pred(holding(query), k);
        assert(kept.contains(kept[k]));
        files.lemma_filter_contains_rev(holding(query), kept[k]);
        let i = choose|i: int| 0 <= i < files.len() && files[i] == kept[k];
        assert(files[i].holds(query) && files[i].path()@ == path);
    }
    if exists|i: int|
        0 <= i < files.len() && (#[trigger] files[i]).holds(query) && files[i].path()@ == path {
        let i = choose|i: int|
            0 <= i < files.len() && (#[trigger] files[i]).holds(query) && files[i].path()@ == path;
        files.lemma_filter_contains(holding(query), i);
        let k = choose|k: int| 0 <= k < kept.len() && kept[k] == files[i];
        assert(paths(kept)[k] == path);
    }
}

/// Of files with different paths no path is reported twice.
pub proof fn lemma_reported_distinct(files: Seq<Node>, query: Seq<char>)
    requires
        paths(files).no_duplicates(),
    ensures
        reported(files, query).no_duplicates(),
    decreases files.len(),
{
    if files.len() == 0 {
        files.lemma_filter_len(holding(query));
    } else {
        let rest = files.drop_last();
        let last = files.last();
        assert(files =~= rest.push(last));
        assert forall|i: int, j: int| 0 <= i < j < paths(rest).len() implies paths(rest)[i]
            != paths(rest)[j] by {
            assert(paths(files)[i] == paths(rest)[i]);
            assert(paths(files)[j] == paths(rest)[j]);
        }
        lemma_reported_distinct(rest, query);
        rest.lemma_filter_push(last, holding(query));
        let kept = rest.filter(holding(query));
        if last.holds(query) {
            assert(paths(kept.push(last)) =~= paths(kept).push(last.path()@));
            assert forall|k: int| 0 <= k < kept.len() implies paths(kept)[k] != last.path()@ by {
                assert(kept.contains(kept[k]));
                rest.lemma_filter_contains_rev(holding(query), kept[k]);
                let i = choose|i: int| 0 <= i < rest.len() && rest[i] == kept[k];
                assert(paths(files)[i] == kept[k].path()@);
                assert(paths(files)[files.len() - 1] == last.path()@);
            }
        }
    }
}

/// Where the files that a walk reaches have different paths, the search
/// reports no path twice.
pub proof fn lemma_matches_distinct(node: Node, query: Seq<char>)
    requires
        paths(node.files()).no_duplicates(),
    ensures
        node.matches(query).no_duplicates(),
{
    lemma_matches_reported(node, query);
    lemma_reported_distinct(node.files(), query);
}

/// What is reported of files depends on which files they are, and not on
/// the order in which they come.
pub proof fn lemma_reported_in_any_order(first: Seq<Node>, second: Seq<Node>, query: Seq<char>)
    requires
        first.to_multiset() == second.to_multiset(),
    ensures
        reported(first, query).to_multiset() == reported(second, query).to_multiset(),
    decreases first.len(),
{
    first.to_multiset_ensures();
    second.to_multiset_ensures();
    if first.len() == 0 {
        assert(second.len() == 0);
        assert(first =~= second);
    } else {
        let last = first.last();
        let rest = first.drop_last();
        assert(first =~= rest.push(last));
        rest.to_multiset_ensures();
        assert(first[first.len() - 1] == last);
        assert(first.contains(last));
        assert(first.to_multiset().count(last) > 0);
        assert(second.to_multiset().count(last) > 0);
        assert(second.contains(last));
        let k = choose|k: int| 0 <= k < second.len() && second[k] == last;
        let others = second.remove(k);
        assert(others.to_multiset() =~= rest.to_multiset()) by {
            broadcast use vstd::multiset::group_multiset_axioms;

            assert(first.to_multiset() =~= rest.to_multiset().insert(last));
            assert(others.to_multiset() =~= second.to_multiset().remove(last));
            assert(rest.to_multiset().insert(last).remove(last) =~= rest.to_multiset());
        }
        lemma_reported_in_any_order(rest, others, query);
        let one = seq![last];
        let head = second.take(k);
        let tail = second.skip(k + 1);
        assert(first =~= rest + one);
        assert(second =~= head + one + tail);
        assert(others =~= head + tail);
        lemma_reported_add(rest, one, query);
        lemma_reported_add(head + one, tail, query);
        lemma_reported_add(head, one, query);
        lemma_reported_add(head, tail, query);
        let shown = reported(one, query);
        vstd::seq_lib::lemma_multiset_commutative(reported(rest, query), shown);
        vstd::seq_lib::lemma_multiset_commutative(
            reported(head, query) + shown,
            reported(tail, query),
        );
        vstd::seq_lib::lemma_multiset_commutative(reported(head, query), shown);
        vstd::seq_lib::lemma_multiset_commutative(reported(head, query), reported(tail, query));
        assert(reported(second, query).to_multiset() =~= reported(others, query).to_multiset().add(
            shown.to_multiset(),
        ));
    }
}

/// Two searches that reach the same files report the same paths, in
/// whatever order each of them reaches the files.
pub proof fn lemma_matches_in_any_order(node: Node, other: Node, query: Seq<char>)
    requires
        node.files().to_multiset() == other.files().to_multiset(),
    ensures
        node.matches(query).to_multiset() == other.matches(query).to_multiset(),
{
    lemma_matches_reported(node, query);
    lemma_matches_reported(other, query);
    lemma_reported_in_any_order(node.files(), other.files(), query);
}

/// The empty query is held by every file that can be read, and by no other
/// node.
pub proof fn lemma_empty_query_held(file: Node)
    ensures
        file.holds(Seq::empty()) <==> file.is_readable(),
{
    if let Node::File { read: Ok(content), .. } = file {
        lemma_empty_occurs(content@);
    }
}

/// A search for the empty query reports every file that the walk reaches
/// and that can be read, and no other.
pub proof fn lemma_empty_query_matches_readable(node: Node)
    ensures
        node.matches(Seq::empty()) == paths(node.files().filter(readable())),
{
    lemma_matches_reported(node, Seq::empty());
    assert forall|file: Node| #[trigger] holding(Seq::empty())(file) == readable()(file) by {
        lemma_empty_query_held(file);
    }
    assert(holding(Seq::empty()) =~= readable());
}

/// A search for a query that no reached file holds reports nothing.
pub proof fn lemma_absent_query_matches_nothing(node: Node, query: Seq<char>)
    requires
        forall|i: int| 0 <= i < node.files().len() ==> !(#[trigger] node.files()[i]).holds(query),
    ensures
        node.matches(query) == Seq::<Seq<char>>::empty(),
{
    if node.matches(query).len() > 0 {
        let path = node.matches(query)[0];
        assert(node.matches(query).contains(path));
        lemma_match_iff_held(node, query, path);
    }
    assert(node.matches(query) =~= Seq::<Seq<char>>::empty());
}

/// The two entries of a listing stand for the same: both for a node, and
/// the two nodes hold the same texts, or both for a failure.
pub open spec fn same_entry(first: Result<Node, Failure>, second: Result<Node, Failure>) -> bool
    decreases first,
{
    match (first, second) {
        (Ok(one), Ok(other)) => one.same_texts(other),
        (Err(_), Err(_)) => true,
        _ => false,
    }
}

impl Node {
    /// The two trees hold the same texts at the same places: node for node
    /// the same path, for a file the same text, for a directory the same
    /// entries in the same order, and what cannot be opened in one cannot be
    /// opened in the other. Of the refusals, and of why something cannot be
    /// opened, nothing is asked.
    pub open spec fn same_texts(self, other: Node) -> bool
        decreases self,
    {
        match (self, other) {
            (
                Node::File { path, read, .. },
                Node::File { path: other_path, read: other_read, .. },
            ) => {
                &&& path@ == other_path@
                &&& match (read, other_read) {
                    (Ok(text), Ok(other_text)) => text@ == other_text@,
                    (Err(_), Err(_)) => true,
                    _ => false,
                }
            },
            (
                Node::Dir { path, listing, .. },
                Node::Dir { path: other_path, listing: other_listing, .. },
            ) => {
                &&& path@ == other_path@
                &&& match (listing, other_listing) {
                    (Ok(entries), Ok(other_entries)) => {
                        &&& entries@.len() == other_entries@.len()
                        &&& forall|i: int|
                            0 <= i < entries@.len() ==> same_entry(
                                #[trigger] entries@[i],
                                other_entries@[i],
                            )
                    },
                    (Err(_), Err(_)) => true,
                    _ => false,
                }
            },
            _ => false,
        }
    }
}

/// Below entries that stand for the same, a search reports the same.
pub proof fn lemma_same_entries_same_matches(
    entries: Seq<Result<Node, Failure>>,
    others: Seq<Result<Node, Failure>>,
    upto: nat,
    query: Seq<char>,
)
    requires
        entries.len() == others.len(),
        forall|i: int| 0 <= i < entries.len() ==> same_entry(#[trigger] entries[i], others[i]),
    ensures
        matches_among(entries, upto, query) == matches_among(others, upto, query),
    decreases entries, upto,
{
    if 0 < upto <= entries.len() {
        lemma_same_entries_same_matches(entries, others, (upto - 1) as nat, query);
        assert(same_entry(entries[upto - 1], others[upto - 1]));
        if let (Ok(one), Ok(other)) = (entries[upto - 1], others[upto - 1]) {
            lemma_same_texts_same_matches(one, other, query);
        }
    }
}

/// Two searches for one query in trees that hold the same texts report the
/// same paths, however often the one or the other was refused on its way.
pub proof fn lemma_same_texts_same_matches(node: Node, other: Node, query: Seq<char>)
    requires
        node.same_texts(other),
    ensures
        node.matches(query) == other.matches(query),
    decreases node,
{
    if let (Node::Dir { listing: Ok(entries), .. }, Node::Dir { listing: Ok(others), .. }) = (
        node,
        other,
    ) {
        lemma_same_entries_same_matches(entries@, others@, entries@.len(), query);
    }
}

} // verus!
