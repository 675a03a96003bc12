//! What can go wrong on a connection, and how it is reported.
use vstd::prelude::*;

verus! {

/// One thing that went wrong.
#[derive(Debug)]
pub enum ErrorKind {
    /// The peer closed the connection before all that was awaited had come, in the
    /// system's words.
    ConnectionClosed(String),
    /// Any other failure of the connection, in the system's words.
    Io(String),
    /// A row of a connection header is not of the form `name=value`.
    MalformedHeader,
    /// A connection header lacks this field.
    HeaderMissingField(String),
    /// A field of a connection header does not hold the value that it must.
    HeaderMismatch { field: String, expected: String, actual: String },
    /// No connection to a publisher of this topic came about.
    TopicConnectionFail(String),
}

/// An `ErrorKind` with its texts as sequences of characters.
pub enum ErrorKindView {
    ConnectionClosed(Seq<char>),
    Io(Seq<char>),
    MalformedHeader,
    HeaderMissingField(Seq<char>),
    HeaderMismatch { field: Seq<char>, expected: Seq<char>, actual: Seq<char> },
    TopicConnectionFail(Seq<char>),
}

impl View for ErrorKind {
    type V = ErrorKindView;

    open spec fn view(&self) -> ErrorKindView {
        match self {
            ErrorKind::ConnectionClosed(message) => ErrorKindView::ConnectionClosed(message@),
            ErrorKind::Io(message) => ErrorKindView::Io(message@),
            ErrorKind::MalformedHeader => ErrorKindView::MalformedHeader,
            ErrorKind::HeaderMissingField(field) => ErrorKindView::HeaderMissingField(field@),
            ErrorKind::HeaderMismatch { field, expected, actual } => ErrorKindView::HeaderMismatch {
                field: field@,
                expected: expected@,
                actual: actual@,
            },
            ErrorKind::TopicConnectionFail(topic) => ErrorKindView::TopicConnectionFail(topic@),
        }
    }
}

impl ErrorKindView {
    /// The failure in words.
    pub open spec fn text(self) -> Seq<char> {
        match self {
            ErrorKindView::ConnectionClosed(message) => message,
            ErrorKindView::Io(message) => message,
            ErrorKindView::MalformedHeader => "Header rows need to have a format of key=value"@,
            ErrorKindView::HeaderMissingField(field) => "Data field '"@ + field
                + "' within header missing"@,
            ErrorKindView::HeaderMismatch { field, expected, actual } => "Data field '"@ + field
                + "' within header mismatched. Expected: '"@ + expected + "' Actual: '"@ + actual
                + "'"@,
            ErrorKindView::TopicConnectionFail(topic) => "Could not connect to '"@ + topic
                + "' topic"@,
        }
    }
}

/// The input ended before all that was awaited had come, in the words that the standard
/// library has for it.
pub open spec fn cut_short() -> ErrorKindView {
    ErrorKindView::ConnectionClosed("failed to fill whole buffer"@)
}

impl ErrorKind {
    /// The input ended before all that was awaited had come.
    pub(crate) fn cut_short() -> (kind: ErrorKind)
        ensures
            kind@ == cut_short(),
    {
        ErrorKind::ConnectionClosed("failed to fill whole buffer".to_owned())
    }

    /// The failure in words.
    pub fn text(&self) -> (text: String)
        ensures
            text@ == self@.text(),
    {
        match self {
            ErrorKind::ConnectionClosed(message) => message.clone(),
            ErrorKind::Io(message) => message.clone(),
            ErrorKind::MalformedHeader => "Header rows need to have a format of key=value".to_owned(),
            ErrorKind::HeaderMissingField(field) => "Data field '".to_owned().concat(
                field.as_str(),
            ).concat("' within header missing"),
            ErrorKind::HeaderMismatch { field, expected, actual } => "Data field '".to_owned().concat(
                field.as_str(),
            ).concat("' within header mismatched. Expected: '").concat(expected.as_str()).concat(
                "' Actual: '",
            ).concat(actual.as_str()).concat("'"),
            ErrorKind::TopicConnectionFail(topic) => "Could not connect to '".to_owned().concat(
                topic.as_str(),
            ).concat("' topic"),
        }
    }
}

/// A failure with what caused it, the outermost first.
#[derive(Debug)]
pub struct Error {
    pub kind: ErrorKind,
    pub causes: Vec<ErrorKind>,
}

/// The views of some kinds, in order.
pub open spec fn kinds_view(kinds: Seq<ErrorKind>) -> Seq<ErrorKindView> {
    Seq::new(kinds.len(), |i: int| kinds[i]@)
}

impl View for Error {
    type V = Seq<ErrorKindView>;

    open spec fn view(&self) -> Seq<ErrorKindView> {
        seq![self.kind@] + kinds_view(self.causes@)
    }
}

/// The failures of a chain in words, each cause on a line of its own.
pub open spec fn chain_text(chain: Seq<ErrorKindView>) -> Seq<char>
    recommends
        chain.len() > 0,
    decreases chain.len(),
{
    if chain.len() <= 1 {
        chain[0].text()
    } else {
        chain_text(chain.drop_last()) + "\nCaused by:"@ + chain.last().text()
    }
}

/// A connection that the peer closed is nothing to report.
pub open spec fn closed_connection(chain: Seq<ErrorKindView>) -> bool {
    chain[0] is ConnectionClosed
}

/// A result whose failure, if it is one, is the given one and has no cause.
pub open spec fn same_outcome<T>(result: Result<T, Error>, outcome: Result<T, ErrorKindView>) -> bool {
    match (result, outcome) {
        (Ok(value), Ok(expected)) => value == expected,
        (Err(failure), Err(kind)) => failure@ == seq![kind],
        _ => false,
    }
}

impl Error {
    /// A failure without a cause.
    pub fn new(kind: ErrorKind) -> (error: Error)
        ensures
            error@ == seq![kind@],
    {
        let error = Error { kind, causes: Vec::new() };
        assert(error@ =~= seq![kind@]);
        error
    }

    /// The failure `kind`, caused by this one.
    pub fn chain_err(self, kind: ErrorKind) -> (error: Error)
        ensures
            error@ == seq![kind@] + self@,
    {
        let mut causes = self.causes;
        let ghost before = causes@;
        let ghost cause = self.kind@;
        causes.insert(0, self.kind);
        let error = Error { kind, causes };
        assert(kinds_view(causes@) =~= seq![cause] + kinds_view(before));
        error
    }

    /// Whether the peer has closed the connection, as it does when it only wanted to
    /// know that somebody listens.
    pub fn is_closed_connection(&self) -> (closed: bool)
        ensures
            closed == closed_connection(self@),
    {
        match self.kind {
            ErrorKind::ConnectionClosed(_) => true,
            _ => false,
        }
    }

    /// The failure and its causes in words, each cause on a line of its own.
    pub fn report(&self) -> (text: String)
        ensures
            text@ == chain_text(self@),
    {
        let mut text = self.kind.text();
        let mut i: usize = 0;
        assert(self@.take(1) =~= seq![self.kind@]);
        while i < self.causes.len()
            invariant
                i <= self.causes.len(),
                text@ == chain_text(self@.take(i + 1)),
            decreases self.causes.len() - i,
        {
            text = text.concat("\nCaused by:").concat(self.causes[i].text().as_str());
            proof {
                let chain = self@.take(i + 2);
                assert(chain.drop_last() =~= self@.take(i + 1));
                assert(chain.last() == self.causes@[i as int]@);
            }
            i = i + 1;
        }
        assert(self@.take(i + 1) =~= self@);
        text
    }
}

} // verus!
