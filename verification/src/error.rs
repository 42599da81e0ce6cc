//! The errors of reading a netlist, and the byte spans that they point at.
use vstd::prelude::*;

verus! {

/// A range of byte offsets into the source text, `start` included and `end`
/// excluded.
#[derive(Clone, Copy, Debug, PartialEq, Eq, Structural)]
pub struct Span {
    pub start: usize,
    pub end: usize,
}

/// Why a source text could not be read as a netlist.
#[derive(Debug)]
pub enum ParseError {
    /// The text ended where a token was needed.
    UnexpectedEof { at: Span },
    /// A token of another kind stands where only one kind is allowed.
    UnexpectedToken { expected: String, found: String, at: Span },
    /// The text at `at` forms no token.
    UnknownToken { found: String, at: Span },
    /// No child with this label.
    MissingChild(String),
    /// The child has no leading string.
    MissingValue(),
    /// The string names no pin type.
    UnknownPinType(String),
    /// A component names a part (`lib/part`) that the netlist does not define.
    MissingPart(String),
    /// No net holds a node for this reference designator and pin.
    MissingNet(String, String),
    /// No component uses this part (`lib/part`).
    UnusedPart(String),
    /// The netlist declares a format version other than the supported one.
    UnknownVersion(String),
    /// The outermost expression is not an export.
    UnexpectedRootLabel(String),
}

/// A [`ParseError`] with its strings as character sequences.
pub enum ParseErrorView {
    UnexpectedEof { at: Span },
    UnexpectedToken { expected: Seq<char>, found: Seq<char>, at: Span },
    UnknownToken { found: Seq<char>, at: Span },
    MissingChild(Seq<char>),
    MissingValue,
    UnknownPinType(Seq<char>),
    MissingPart(Seq<char>),
    MissingNet(Seq<char>, Seq<char>),
    UnusedPart(Seq<char>),
    UnknownVersion(Seq<char>),
    UnexpectedRootLabel(Seq<char>),
}

impl View for ParseError {
    type V = ParseErrorView;

    open spec fn view(&self) -> ParseErrorView {
        match self {
            ParseError::UnexpectedEof { at } => ParseErrorView::UnexpectedEof { at: *at },
            ParseError::UnexpectedToken { expected, found, at } => ParseErrorView::UnexpectedToken {
                expected: expected@,
                found: found@,
                at: *at,
            },
            ParseError::UnknownToken { found, at } => ParseErrorView::UnknownToken {
                found: found@,
                at: *at,
            },
            ParseError::MissingChild(s) => ParseErrorView::MissingChild(s@),
            ParseError::MissingValue() => ParseErrorView::MissingValue,
            ParseError::UnknownPinType(s) => ParseErrorView::UnknownPinType(s@),
            ParseError::MissingPart(s) => ParseErrorView::MissingPart(s@),
            ParseError::MissingNet(r, p) => ParseErrorView::MissingNet(r@, p@),
            ParseError::UnusedPart(s) => ParseErrorView::UnusedPart(s@),
            ParseError::UnknownVersion(s) => ParseErrorView::UnknownVersion(s@),
            ParseError::UnexpectedRootLabel(s) => ParseErrorView::UnexpectedRootLabel(s@),
        }
    }
}

/// A result agrees with its model: the same outcome, and the value or error
/// that it carries has the view that the model gives.
pub open spec fn agrees<T: View, E: View>(r: Result<T, E>, s: Result<T::V, E::V>) -> bool {
    match s {
        Ok(v) => r matches Ok(x) && x@ == v,
        Err(e) => r matches Err(x) && x@ == e,
    }
}

/// The views of the items of a sequence.
pub open spec fn view_all<T: View>(s: Seq<T>) -> Seq<T::V> {
    s.map_values(|x: T| x@)
}

/// The span from `start` to `end`.
pub open spec fn span(start: int, end: int) -> Span {
    Span { start: start as usize, end: end as usize }
}

/// The qualified name `lib/part` under which errors report a part.
pub open spec fn part_label(lib: Seq<char>, part: Seq<char>) -> Seq<char> {
    lib + "/"@ + part
}

/// Builds the name `lib/part`.
pub fn make_part_label(lib: &str, part: &str) -> (r: String)
    ensures
        r@ == part_label(lib@, part@),
{
    let mut s = lib.to_owned();
    s.append("/");
    s.append(part);
    s
}

} // verus!
