//! What the walk reads of a failed operation, and what it decides on it.

use crate::diagnostic::DiagnosticKind;
use crate::text::{contains, occurs};
use vstd::prelude::*;
use vstd::string::*;

verus! {

/// How long a task waits before it repeats a refused operation.
pub const RETRY_PAUSE_NANOS: u64 = 1000;

/// The kinds of failure that the walk tells apart.
#[derive(Clone, Copy, Debug, PartialEq, Eq, Structural)]
pub enum FailureKind {
    PermissionDenied,
    InvalidData,
    Other,
}

/// A failed listing or read: its kind and the text of the error.
#[derive(Debug, PartialEq, Eq)]
pub struct Failure {
    pub kind: FailureKind,
    pub message: String,
}

/// What a task does about a failure.
#[derive(Clone, Copy, Debug, PartialEq, Eq, Structural)]
pub enum Verdict {
    /// Wait and repeat the operation.
    Retry,
    /// Leave the node without a word.
    Skip,
    /// Leave the node and log a diagnostic of this kind.
    Report(DiagnosticKind),
}

/// The words by which the system says that the process has too many open
/// handles.
pub open spec fn exhaustion_mark() -> Seq<char> {
    "os error 24"@
}

/// The message is one of handle exhaustion: it contains the mark.
pub open spec fn signals_exhaustion(message: Seq<char>) -> bool {
    occurs(message, exhaustion_mark())
}

/// The verdict on a failed directory listing. Denied permission is reported,
/// whatever the message; exhaustion is retried; the rest is reported.
pub open spec fn listing_verdict(failure: Failure) -> Verdict {
    if failure.kind == FailureKind::PermissionDenied {
        Verdict::Report(DiagnosticKind::PermissionDenied)
    } else if signals_exhaustion(failure.message@) {
        Verdict::Retry
    } else {
        Verdict::Report(DiagnosticKind::ListingFailed)
    }
}

/// The verdict on a failed read. Content that is no text is skipped in
/// silence and denied permission is reported, whatever the message;
/// exhaustion is retried; the rest is reported.
pub open spec fn reading_verdict(failure: Failure) -> Verdict {
    match failure.kind {
        FailureKind::InvalidData => Verdict::Skip,
        FailureKind::PermissionDenied => Verdict::Report(DiagnosticKind::PermissionDenied),
        FailureKind::Other => if signals_exhaustion(failure.message@) {
            Verdict::Retry
        } else {
            Verdict::Report(DiagnosticKind::ReadFailed)
        },
    }
}

impl Clone for Failure {
    fn clone(&self) -> (copy: Self)
        ensures
            copy == *self,
    {
        Failure { kind: self.kind, message: self.message.clone() }
    }
}

impl Failure {
    /// Whether the message is one of handle exhaustion.
    pub fn is_exhaustion(&self) -> (yes: bool)
        ensures
            yes == signals_exhaustion(self.message@),
    {
        contains(self.message.as_str(), "os error 24")
    }

    /// The verdict on this failure of a directory listing.
    pub fn on_listing(&self) -> (verdict: Verdict)
        ensures
            verdict == listing_verdict(*self),
    {
        match self.kind {
            FailureKind::PermissionDenied => Verdict::Report(DiagnosticKind::PermissionDenied),
            _ => if self.is_exhaustion() {
                Verdict::Retry
            } else {
                Verdict::Report(DiagnosticKind::ListingFailed)
            },
        }
    }

    /// The verdict on this failure of a read.
    pub fn on_reading(&self) -> (verdict: Verdict)
        ensures
            verdict == reading_verdict(*self),
    {
        match self.kind {
            FailureKind::InvalidData => Verdict::Skip,
            FailureKind::PermissionDenied => Verdict::Report(DiagnosticKind::PermissionDenied),
            FailureKind::Other => if self.is_exhaustion() {
                Verdict::Retry
            } else {
                Verdict::Report(DiagnosticKind::ReadFailed)
            },
        }
    }
}

} // verus!
