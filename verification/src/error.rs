//! The failures that make one archive file unusable.

use vstd::prelude::*;
use vstd::string::*;

verus! {

/// Why an archive file could not be turned into a page.
#[derive(Clone, Copy, Debug, PartialEq, Eq, Structural)]
pub enum ErrorKind {
    /// The envelope does not begin with the expected header block.
    MalformedHeader,
    /// A part does not begin with the expected header lines.
    MalformedPart,
    /// A part names a transfer encoding other than base64 and quoted-printable.
    UnsupportedEncoding,
    /// A part's payload is not valid in the encoding that the part names.
    Malformed,
    /// The envelope holds no part.
    EmptyDocument,
    /// The first part is not an HTML document.
    NotHtml,
    /// The post markup holds no list-item section.
    MissingListItem,
    /// The list-item section holds no region.
    MissingRegion,
}

/// The longest excerpt of offending input that a failure carries.
pub const CONTEXT_LIMIT: usize = 200;

/// What a failure says: its kind and the start of the input that caused it.
pub struct Failure {
    pub kind: ErrorKind,
    pub context: Seq<u8>,
}

/// The first `CONTEXT_LIMIT` bytes of `s`.
pub open spec fn excerpt(s: Seq<u8>) -> Seq<u8> {
    if s.len() <= CONTEXT_LIMIT {
        s
    } else {
        s.take(CONTEXT_LIMIT as int)
    }
}

/// A failure of kind `kind` on the input `offending`.
pub open spec fn failure(kind: ErrorKind, offending: Seq<u8>) -> Failure {
    Failure { kind, context: excerpt(offending) }
}

/// A failure that carries no input.
pub open spec fn bare_failure(kind: ErrorKind) -> Failure {
    Failure { kind, context: Seq::empty() }
}

impl ErrorKind {
    /// The sentence that describes a failure of this kind.
    pub open spec fn message_text(self) -> Seq<char> {
        match self {
            ErrorKind::MalformedHeader => "MHTML doesn't have expected header"@,
            ErrorKind::MalformedPart => "MHTML piece doesn't have expected header"@,
            ErrorKind::UnsupportedEncoding => "MHTML piece has an unknown transfer encoding"@,
            ErrorKind::Malformed => "MHTML piece cannot be decoded"@,
            ErrorKind::EmptyDocument => "MHTML has no data"@,
            ErrorKind::NotHtml => "Expecting text/html"@,
            ErrorKind::MissingListItem => "Post has no section[role=listitem]"@,
            ErrorKind::MissingRegion => "Post has no [role=region]"@,
        }
    }

    /// The sentence that describes a failure of this kind.
    pub fn message(self) -> (text: &'static str)
        ensures
            text@ == self.message_text(),
    {
        match self {
            ErrorKind::MalformedHeader => "MHTML doesn't have expected header",
            ErrorKind::MalformedPart => "MHTML piece doesn't have expected header",
            ErrorKind::UnsupportedEncoding => "MHTML piece has an unknown transfer encoding",
            ErrorKind::Malformed => "MHTML piece cannot be decoded",
            ErrorKind::EmptyDocument => "MHTML has no data",
            ErrorKind::NotHtml => "Expecting text/html",
            ErrorKind::MissingListItem => "Post has no section[role=listitem]",
            ErrorKind::MissingRegion => "Post has no [role=region]",
        }
    }
}

/// A failure as the library hands it out.
#[derive(Debug)]
pub struct InvalidData {
    pub kind: ErrorKind,
    pub message: String,
    pub context: Vec<u8>,
}

impl View for InvalidData {
    type V = Failure;

    open spec fn view(&self) -> Failure {
        Failure { kind: self.kind, context: self.context@ }
    }
}

impl InvalidData {
    /// Whether the message is the sentence of the failure's kind.
    pub open spec fn well_formed(&self) -> bool {
        self.message@ == self.kind.message_text()
    }

    /// The failure of kind `kind` on the input `offending`, of which it keeps an excerpt.
    pub fn on_input(kind: ErrorKind, offending: &[u8]) -> (e: InvalidData)
        ensures
            e@ == failure(kind, offending@),
            e.well_formed(),
    {
        let mut e = invalid_data_err(kind, kind.message());
        let mut i: usize = 0;
        while i < offending.len() && i < CONTEXT_LIMIT
            invariant
                i <= offending@.len(),
                i <= CONTEXT_LIMIT,
                e.context@ == offending@.take(i as int),
                e.kind == kind,
                e.message@ == kind.message_text(),
            decreases offending@.len() - i,
        {
            e.context.push(offending[i]);
            i += 1;
        }
        assert(offending@.take(offending@.len() as int) =~= offending@);
        e
    }

    /// The failure of kind `kind` that carries no input.
    pub fn bare(kind: ErrorKind) -> (e: InvalidData)
        ensures
            e@ == bare_failure(kind),
            e.well_formed(),
    {
        invalid_data_err(kind, kind.message())
    }
}

/// A failure of kind `kind` that says `message` and carries no input.
pub fn invalid_data_err(kind: ErrorKind, message: &str) -> (e: InvalidData)
    ensures
        e.kind == kind,
        e.message@ == message@,
        e.context@ == Seq::<u8>::empty(),
{
    InvalidData { kind, message: String::from_str(message), context: Vec::new() }
}

} // verus!
