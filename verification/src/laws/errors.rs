//! Failures in words.
use crate::error;
use crate::error::{Error, ErrorKind, ErrorKindView};
use vstd::prelude::*;

verus! {

/// The words for a failure hold the system's words, or what the header and the topic say.
pub proof fn law_failure_in_words(kind: &ErrorKind, text: String)
    requires
        call_ensures(ErrorKind::text, (kind,), text),
    ensures
        match *kind {
            ErrorKind::ConnectionClosed(message) => text@ == message@,
            ErrorKind::Io(message) => text@ == message@,
            ErrorKind::MalformedHeader => text@ == "Header rows need to have a format of key=value"@,
            ErrorKind::HeaderMissingField(field) => text@ == "Data field '"@ + field@
                + "' within header missing"@,
            ErrorKind::HeaderMismatch { field, expected, actual } => text@ == "Data field '"@
                + field@ + "' within header mismatched. Expected: '"@ + expected@ + "' Actual: '"@
                + actual@ + "'"@,
            ErrorKind::TopicConnectionFail(topic) => text@ == "Could not connect to '"@ + topic@
                + "' topic"@,
        },
{
}

/// What kind a failure is, and what it says, is all there in its view.
pub proof fn law_kind_is_seen_whole(kind: ErrorKind)
    ensures
        match kind {
            ErrorKind::ConnectionClosed(message) => kind@ == ErrorKindView::ConnectionClosed(
                message@,
            ),
            ErrorKind::Io(message) => kind@ == ErrorKindView::Io(message@),
            ErrorKind::MalformedHeader => kind@ == ErrorKindView::MalformedHeader,
            ErrorKind::HeaderMissingField(field) => kind@ == ErrorKindView::HeaderMissingField(
                field@,
            ),
            ErrorKind::HeaderMismatch { field, expected, actual } => kind@
                == (ErrorKindView::HeaderMismatch {
                field: field@,
                expected: expected@,
                actual: actual@,
            }),
            ErrorKind::TopicConnectionFail(topic) => kind@ == ErrorKindView::TopicConnectionFail(
                topic@,
            ),
        },
{
}

/// A new failure is of its kind and has no cause.
pub proof fn law_new_failure(kind: ErrorKind, failure: Error)
    requires
        call_ensures(Error::new, (kind,), failure),
    ensures
        failure.kind@ == kind@,
        failure.causes@.len() == 0,
{
    assert(failure@.len() == 1);
    assert(failure@[0] == failure.kind@);
}

/// A failure without a cause is reported in its own words.
pub proof fn law_report_of_one_failure(
    kind: ErrorKind,
    failure: Error,
    words: String,
    report: String,
)
    requires
        call_ensures(Error::new, (kind,), failure),
        call_ensures(ErrorKind::text, (&kind,), words),
        call_ensures(Error::report, (&failure,), report),
    ensures
        report@ == words@,
{
}

pub(crate) proof fn lemma_cause_in_front(kind: ErrorKindView, chain: Seq<ErrorKindView>)
    requires
        chain.len() > 0,
    ensures
        error::chain_text(seq![kind] + chain) == kind.text() + "\nCaused by:"@
            + error::chain_text(chain),
    decreases chain.len(),
{
    let whole = seq![kind] + chain;
    if chain.len() == 1 {
        reveal_with_fuel(error::chain_text, 2);
        assert(whole.drop_last() =~= seq![kind]);
    } else {
        lemma_cause_in_front(kind, chain.drop_last());
        assert(whole.drop_last() =~= seq![kind] + chain.drop_last());
        assert(error::chain_text(whole) =~= kind.text() + "\nCaused by:"@
            + error::chain_text(chain));
    }
}

/// A failure that another one has caused is reported in its own words, followed by the
/// report of the other one, which is left whole.
pub proof fn law_report_of_a_caused_failure(
    cause: Error,
    kind: ErrorKind,
    failure: Error,
    words: String,
    cause_report: String,
    report: String,
)
    requires
        call_ensures(Error::chain_err, (cause, kind), failure),
        call_ensures(ErrorKind::text, (&kind,), words),
        call_ensures(Error::report, (&cause,), cause_report),
        call_ensures(Error::report, (&failure,), report),
    ensures
        report@ == words@ + "\nCaused by:"@ + cause_report@,
{
    lemma_cause_in_front(kind@, cause@);
}

/// A failure is a closed connection exactly when it is one itself, whatever caused it.
pub proof fn law_closed_connection(failure: &Error, closed: bool)
    requires
        call_ensures(Error::is_closed_connection, (failure,), closed),
    ensures
        closed == (failure.kind is ConnectionClosed),
{
}

/// Another failure does not change what it was caused by: it comes in front.
pub proof fn law_cause_stays(cause: Error, kind: ErrorKind, failure: Error)
    requires
        call_ensures(Error::chain_err, (cause, kind), failure),
    ensures
        failure.kind@ == kind@,
        failure.causes@.len() == cause.causes@.len() + 1,
        failure.causes@[0]@ == cause.kind@,
        forall|i: int|
            0 <= i < cause.causes@.len() ==> (#[trigger] failure.causes@[i + 1])@
                == cause.causes@[i]@,
{
    let (after, before) = (failure@, cause@);
    assert(after.len() == 1 + failure.causes@.len());
    assert(after[0] == failure.kind@);
    assert(after[1] == failure.causes@[0]@);
    assert(before[0] == cause.kind@);
    assert forall|i: int| 0 <= i < cause.causes@.len() implies (#[trigger] failure.causes@[i + 1])@
        == cause.causes@[i]@ by {
        assert(after[i + 2] == failure.causes@[i + 1]@);
        assert(before[i + 1] == cause.causes@[i]@);
    }
}

} // verus!
