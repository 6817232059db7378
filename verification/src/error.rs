//! Why an expression could not be resolved.

use crate::decimal::{decimal_string, decimal_text};
use vstd::prelude::*;

verus! {

/// The side of a range.
#[derive(Clone, Copy, Debug, PartialEq, Eq, Hash, Structural)]
pub enum Endpoint {
    From,
    To,
}

/// Why a range endpoint did not resolve.
#[derive(Clone, Copy, Debug, PartialEq, Eq, Hash, Structural)]
pub enum EndpointCause {
    /// The endpoint is no version at all.
    InvalidVersionSyntax,
    /// The endpoint is a version that the catalog does not hold.
    UnknownVersion,
}

/// Why a version, a range or one segment of an enumeration did not resolve.
#[derive(Debug, PartialEq, Eq, Hash)]
pub enum ResolveError {
    /// The repeat count before `x` is missing, zero, too large or no number, or
    /// nothing follows the `x`, or there is more than one `x`. Holds the input.
    InvalidMultiplier(String),
    /// The text is neither `dev` nor two digits with an optional `.` and digit.
    /// Holds the text.
    InvalidVersionSyntax(String),
    /// The catalog holds no release of that version. Holds the text.
    UnknownVersion(String),
    /// The text does not hold `..` exactly once. Holds the input.
    MalformedRange(String),
    /// The development build was named as an end of a range. Holds the input.
    DevNotAllowedInRange(String),
    /// One end of a range is no known version. Holds the side, the text of that
    /// end, and why it did not resolve.
    InvalidRangeEndpoint(Endpoint, String, EndpointCause),
    /// The range starts after it ends. Holds the two identifiers.
    RangeDescending(u16, u16),
    /// A segment of an enumeration is empty or made of white space. Holds the segment.
    EmptyOrUnparsableSegment(String),
}

/// What a `ResolveError` stands for.
pub enum Failure {
    InvalidMultiplier(Seq<char>),
    InvalidVersionSyntax(Seq<char>),
    UnknownVersion(Seq<char>),
    MalformedRange(Seq<char>),
    DevNotAllowedInRange(Seq<char>),
    InvalidRangeEndpoint(Endpoint, Seq<char>, EndpointCause),
    RangeDescending(int, int),
    EmptyOrUnparsableSegment(Seq<char>),
}

impl Failure {
    /// The failure in words.
    pub open spec fn message(self) -> Seq<char> {
        match self {
            Failure::InvalidMultiplier(input) => "invalid multiplier in '"@ + input + "'"@,
            Failure::InvalidVersionSyntax(text) => "invalid version '"@ + text + "'"@,
            Failure::UnknownVersion(text) => "unknown version "@ + text,
            Failure::MalformedRange(input) => "malformed range '"@ + input + "'"@,
            Failure::DevNotAllowedInRange(input) => "'dev' is not allowed in '"@ + input + "'"@,
            Failure::InvalidRangeEndpoint(side, text, _) => match side {
                Endpoint::From => "from '"@ + text + "' is not valid"@,
                Endpoint::To => "to '"@ + text + "' is not valid"@,
            },
            Failure::RangeDescending(from, to) => decimal_text(from as nat) + " is greater than "@
                + decimal_text(to as nat),
            Failure::EmptyOrUnparsableSegment(segment) => "empty segment '"@ + segment + "'"@,
        }
    }
}

impl View for ResolveError {
    type V = Failure;

    open spec fn view(&self) -> Failure {
        match self {
            ResolveError::InvalidMultiplier(input) => Failure::InvalidMultiplier(input@),
            ResolveError::InvalidVersionSyntax(text) => Failure::InvalidVersionSyntax(text@),
            ResolveError::UnknownVersion(text) => Failure::UnknownVersion(text@),
            ResolveError::MalformedRange(input) => Failure::MalformedRange(input@),
            ResolveError::DevNotAllowedInRange(input) => Failure::DevNotAllowedInRange(input@),
            ResolveError::InvalidRangeEndpoint(side, text, cause) => Failure::InvalidRangeEndpoint(
                *side,
                text@,
                *cause,
            ),
            ResolveError::RangeDescending(from, to) => Failure::RangeDescending(
                *from as int,
                *to as int,
            ),
            ResolveError::EmptyOrUnparsableSegment(segment) => Failure::EmptyOrUnparsableSegment(
                segment@,
            ),
        }
    }
}

/// `before`, `text` and `after` in one string.
fn framed(before: &str, text: &str, after: &str) -> (framed: String)
    ensures
        framed@ == before@ + text@ + after@,
{
    let mut framed = String::from_str(before);
    framed.append(text);
    framed.append(after);
    framed
}

impl ResolveError {
    /// The error in words.
    pub fn message(&self) -> (message: String)
        ensures
            message@ == self@.message(),
            message@.len() > 0,
    {
        proof {
            lemma_message_not_empty(self@);
        }
        match self {
            ResolveError::InvalidMultiplier(input) => framed(
                "invalid multiplier in '",
                input.as_str(),
                "'",
            ),
            ResolveError::InvalidVersionSyntax(text) => framed(
                "invalid version '",
                text.as_str(),
                "'",
            ),
            ResolveError::UnknownVersion(text) => {
                let mut message = String::from_str("unknown version ");
                message.append(text.as_str());
                message
            },
            ResolveError::MalformedRange(input) => framed("malformed range '", input.as_str(), "'"),
            ResolveError::DevNotAllowedInRange(input) => framed(
                "'dev' is not allowed in '",
                input.as_str(),
                "'",
            ),
            ResolveError::InvalidRangeEndpoint(side, text, _) => match side {
                Endpoint::From => framed("from '", text.as_str(), "' is not valid"),
                Endpoint::To => framed("to '", text.as_str(), "' is not valid"),
            },
            ResolveError::RangeDescending(from, to) => {
                let mut message = decimal_string(*from as u64);
                message.append(" is greater than ");
                message.append(decimal_string(*to as u64).as_str());
                message
            },
            ResolveError::EmptyOrUnparsableSegment(segment) => framed(
                "empty segment '",
                segment.as_str(),
                "'",
            ),
        }
    }
}

/// No failure has an empty message.
pub proof fn lemma_message_not_empty(failure: Failure)
    ensures
        failure.message().len() > 0,
{
    reveal_strlit("'");
    reveal_strlit("unknown version ");
    reveal_strlit("' is not valid");
    reveal_strlit(" is greater than ");
}

/// The texts of `lines`, each but the last followed by a line feed.
pub open spec fn join_lines(lines: Seq<Seq<char>>) -> Seq<char>
    decreases lines.len(),
{
    if lines.len() == 0 {
        Seq::empty()
    } else if lines.len() == 1 {
        lines[0]
    } else {
        join_lines(lines.drop_last()) + seq!['\n'] + lines.last()
    }
}

/// The messages of a sequence of failures, in order.
pub open spec fn messages(failures: Seq<Failure>) -> Seq<Seq<char>> {
    Seq::new(failures.len(), |i: int| failures[i].message())
}

/// The failures that a sequence of errors stands for.
pub open spec fn failures(errors: Seq<ResolveError>) -> Seq<Failure> {
    Seq::new(errors.len(), |i: int| errors[i]@)
}

/// Why an enumeration did not resolve: the error of each segment that failed,
/// in the order of the segments. It holds at least one.
#[derive(Debug, PartialEq, Eq, Hash)]
pub struct EnumerationError {
    pub errors: Vec<ResolveError>,
}

impl View for EnumerationError {
    type V = Seq<Failure>;

    open spec fn view(&self) -> Seq<Failure> {
        failures(self.errors@)
    }
}

/// Lines of which the last is not empty make a text that is not empty.
pub proof fn lemma_join_lines_not_empty(lines: Seq<Seq<char>>)
    requires
        lines.len() > 0,
        lines.last().len() > 0,
    ensures
        join_lines(lines).len() > 0,
{
}

impl EnumerationError {
    /// The message of the one error, or those of the several, one per line.
    pub fn message(&self) -> (message: String)
        ensures
            message@ == join_lines(messages(self@)),
            self@.len() > 0 ==> message@.len() > 0,
    {
        proof {
            if self@.len() > 0 {
                lemma_message_not_empty(self@.last());
                lemma_join_lines_not_empty(messages(self@));
            }
        }
        let n = self.errors.len();
        let mut message = String::new();
        let mut i: usize = 0;
        while i < n
            invariant
                n == self.errors.len(),
                i <= n,
                message@ == join_lines(messages(self@).take(i as int)),
            decreases n - i,
        {
            let ghost lines = messages(self@).take(i + 1);
            if i > 0 {
                message.append("\n");
            }
            message.append(self.errors[i].message().as_str());
            proof {
                reveal_strlit("\n");
                assert("\n"@ =~= seq!['\n']);
                assert(lines.drop_last() =~= messages(self@).take(i as int));
                assert(lines.last() == self.errors@[i as int]@.message());
                if i == 0 {
                    assert(message@ =~= lines[0]);
                }
            }
            i += 1;
        }
        proof {
            assert(messages(self@).take(n as int) =~= messages(self@));
        }
        message
    }
}

} // verus!
