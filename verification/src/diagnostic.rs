//! The diagnostics that a walk logs: structured, with the line each is
//! printed as.

use vstd::prelude::*;
use vstd::string::*;

verus! {

/// What a diagnostic is about.
#[derive(Clone, Copy, Debug, PartialEq, Eq, Structural)]
pub enum DiagnosticKind {
    /// A directory or file that may not be opened.
    PermissionDenied,
    /// A directory that could not be listed.
    ListingFailed,
    /// An entry that failed while its directory was listed.
    EntryFailed,
    /// A file that could not be read.
    ReadFailed,
    /// A child task that ended abnormally.
    TaskPanicked,
    /// A match that the result sink did not take.
    SinkClosed,
}

/// A logged event. The subject is the path for denied permission, the
/// error's text for the three failures, and empty otherwise.
#[derive(Debug, PartialEq, Eq)]
pub struct Diagnostic {
    pub kind: DiagnosticKind,
    pub subject: String,
}

/// A diagnostic as a mathematical value.
pub struct Notice {
    pub kind: DiagnosticKind,
    pub subject: Seq<char>,
}

impl DiagnosticKind {
    /// The words that open the line of a diagnostic of this kind.
    pub open spec fn heading(self) -> Seq<char> {
        match self {
            DiagnosticKind::PermissionDenied => "Permission denied: "@,
            DiagnosticKind::ListingFailed => "Unexpected error during directory iteration: "@,
            DiagnosticKind::EntryFailed => {
                "Unexpected error happened during directory iteration: "@
            },
            DiagnosticKind::ReadFailed => "Unexpected error while opening a file: "@,
            DiagnosticKind::TaskPanicked => "Searching thread panicked"@,
            DiagnosticKind::SinkClosed => "Error while sending results from the thread"@,
        }
    }

    /// The words that open the line of a diagnostic of this kind.
    pub fn prefix(self) -> (words: &'static str)
        ensures
            words@ == self.heading(),
    {
        match self {
            DiagnosticKind::PermissionDenied => "Permission denied: ",
            DiagnosticKind::ListingFailed => "Unexpected error during directory iteration: ",
            DiagnosticKind::EntryFailed => "Unexpected error happened during directory iteration: ",
            DiagnosticKind::ReadFailed => "Unexpected error while opening a file: ",
            DiagnosticKind::TaskPanicked => "Searching thread panicked",
            DiagnosticKind::SinkClosed => "Error while sending results from the thread",
        }
    }
}

impl Notice {
    /// The line that the diagnostic is printed as.
    pub open spec fn line(self) -> Seq<char> {
        self.kind.heading() + self.subject
    }
}

impl View for Diagnostic {
    type V = Notice;

    open spec fn view(&self) -> Notice {
        Notice { kind: self.kind, subject: self.subject@ }
    }
}

impl Clone for Diagnostic {
    fn clone(&self) -> (copy: Self)
        ensures
            copy == *self,
    {
        Diagnostic { kind: self.kind, subject: self.subject.clone() }
    }
}

impl Diagnostic {
    /// A diagnostic of the given kind about the given subject.
    pub fn new(kind: DiagnosticKind, subject: &str) -> (made: Diagnostic)
        ensures
            made@ == (Notice { kind, subject: subject@ }),
    {
        Diagnostic { kind, subject: String::from_str(subject) }
    }

    /// The line that the diagnostic is printed as.
    pub fn render(&self) -> (line: String)
        ensures
            line@ == self@.line(),
    {
        let mut line = String::from_str(self.kind.prefix());
        line.append(self.subject.as_str());
        line
    }
}

/// A log as a sequence of mathematical values.
pub open spec fn notices(log: Seq<Diagnostic>) -> Seq<Notice> {
    log.map_values(|d: Diagnostic| d@)
}

/// A log without entries holds no notices.
pub proof fn lemma_notices_empty()
    ensures
        notices(Seq::<Diagnostic>::empty()) == Seq::<Notice>::empty(),
{
    assert(notices(Seq::<Diagnostic>::empty()) =~= Seq::<Notice>::empty());
}

/// One more entry in a log is one more notice at its end.
pub proof fn lemma_notices_push(log: Seq<Diagnostic>, entry: Diagnostic)
    ensures
        notices(log.push(entry)) == notices(log).push(entry@),
{
    assert(notices(log.push(entry)) =~= notices(log).push(entry@));
}

/// The notices of two logs put together are those of the first, then those
/// of the second.
pub proof fn lemma_notices_add(first: Seq<Diagnostic>, second: Seq<Diagnostic>)
    ensures
        notices(first + second) == notices(first) + notices(second),
{
    assert(notices(first + second) =~= notices(first) + notices(second));
}

} // verus!
