//! The errors that reading an OBJ file can end in.
use vstd::prelude::*;
use vstd::string::*;

use crate::number::{decimal, decimal_string};

verus! {

#[verifier::external_type_specification]
#[verifier::external_body]
pub struct ExIoError(std::io::Error);

/// Structured description of an OBJ syntax problem.
#[derive(Debug, Clone, PartialEq, Eq)]
pub enum ParseErrorKind {
    /// A line had no directive prefix after trimming whitespace.
    EmptyPrefix,
    /// The line started with a directive the parser does not recognize and
    /// the unknown-directive handler rejected it.
    UnknownPrefix(String),
    /// A directive was missing a required field.
    MissingField(&'static str),
    /// A numeric value could not be parsed as a float.
    InvalidNumber { field: &'static str, value: String },
    /// A face / line / point index was zero, negative, or non-numeric.
    InvalidIndex { kind: &'static str, value: String },
    /// `s <value>` where the value was neither `off` nor a non-negative integer.
    InvalidSmoothingGroup(String),
    /// `l` element with fewer than 2 vertices.
    LineElementTooShort,
    /// `p` element with no vertices.
    PointElementEmpty,
    /// Free-form message, e.g. from a custom unknown-directive handler.
    Custom(String),
}

/// A [`ParseErrorKind`] with its texts as character sequences.
pub enum ParseErrorKindView {
    EmptyPrefix,
    UnknownPrefix(Seq<char>),
    MissingField(Seq<char>),
    InvalidNumber { field: Seq<char>, value: Seq<char> },
    InvalidIndex { kind: Seq<char>, value: Seq<char> },
    InvalidSmoothingGroup(Seq<char>),
    LineElementTooShort,
    PointElementEmpty,
    Custom(Seq<char>),
}

impl View for ParseErrorKind {
    type V = ParseErrorKindView;

    open spec fn view(&self) -> ParseErrorKindView {
        match self {
            ParseErrorKind::EmptyPrefix => ParseErrorKindView::EmptyPrefix,
            ParseErrorKind::UnknownPrefix(p) => ParseErrorKindView::UnknownPrefix(p@),
            ParseErrorKind::MissingField(f) => ParseErrorKindView::MissingField(f@),
            ParseErrorKind::InvalidNumber { field, value } => ParseErrorKindView::InvalidNumber {
                field: field@,
                value: value@,
            },
            ParseErrorKind::InvalidIndex { kind, value } => ParseErrorKindView::InvalidIndex {
                kind: kind@,
                value: value@,
            },
            ParseErrorKind::InvalidSmoothingGroup(v) => ParseErrorKindView::InvalidSmoothingGroup(
                v@,
            ),
            ParseErrorKind::LineElementTooShort => ParseErrorKindView::LineElementTooShort,
            ParseErrorKind::PointElementEmpty => ParseErrorKindView::PointElementEmpty,
            ParseErrorKind::Custom(s) => ParseErrorKindView::Custom(s@),
        }
    }
}

/// Error type of reading an OBJ file.
///
/// `Io` wraps an underlying I/O error from the source. `Parse` carries a
/// structured description of an OBJ syntax problem at a specific line.
#[derive(Debug)]
pub enum ObjError {
    Io(std::io::Error),
    Parse { line: usize, kind: ParseErrorKind },
}

/// An [`ObjError`] as the library's contracts see it.
pub enum ObjErrorView {
    Io,
    Parse { line: usize, kind: ParseErrorKindView },
}

impl View for ObjError {
    type V = ObjErrorView;

    open spec fn view(&self) -> ObjErrorView {
        match self {
            ObjError::Io(_) => ObjErrorView::Io,
            ObjError::Parse { line, kind } => ObjErrorView::Parse { line: *line, kind: kind@ },
        }
    }
}

/// The text that describes a syntax problem.
pub open spec fn kind_message(k: ParseErrorKindView) -> Seq<char> {
    match k {
        ParseErrorKindView::EmptyPrefix => "empty prefix"@,
        ParseErrorKindView::UnknownPrefix(p) => "Unknown line prefix: "@ + p,
        ParseErrorKindView::MissingField(f) => "missing "@ + f,
        ParseErrorKindView::InvalidNumber { field, value } => "invalid "@ + field + ": "@ + value,
        ParseErrorKindView::InvalidIndex { kind, value } => "invalid "@ + kind + " index: "@
            + value,
        ParseErrorKindView::InvalidSmoothingGroup(v) => "invalid smoothing group: "@ + v
            + " (expected integer or 'off')"@,
        ParseErrorKindView::LineElementTooShort => "line element needs at least 2 vertices"@,
        ParseErrorKindView::PointElementEmpty => "point element needs at least 1 vertex"@,
        ParseErrorKindView::Custom(s) => s,
    }
}

/// The text that describes a syntax problem at line `line`.
pub open spec fn parse_error_message(line: usize, k: ParseErrorKindView) -> Seq<char> {
    "line "@ + decimal(line as nat) + ": "@ + kind_message(k)
}

impl ParseErrorKind {
    /// The human-readable description of this problem.
    pub fn message(&self) -> (m: String)
        ensures
            m@ == kind_message(self@),
    {
        match self {
            ParseErrorKind::EmptyPrefix => "empty prefix".to_owned(),
            ParseErrorKind::UnknownPrefix(p) => {
                let mut m = "Unknown line prefix: ".to_owned();
                m.append(p.as_str());
                m
            },
            ParseErrorKind::MissingField(f) => {
                let mut m = "missing ".to_owned();
                m.append(f);
                m
            },
            ParseErrorKind::InvalidNumber { field, value } => {
                let mut m = "invalid ".to_owned();
                m.append(field);
                m.append(": ");
                m.append(value.as_str());
                m
            },
            ParseErrorKind::InvalidIndex { kind, value } => {
                let mut m = "invalid ".to_owned();
                m.append(kind);
                m.append(" index: ");
                m.append(value.as_str());
                m
            },
            ParseErrorKind::InvalidSmoothingGroup(v) => {
                let mut m = "invalid smoothing group: ".to_owned();
                m.append(v.as_str());
                m.append(" (expected integer or 'off')");
                m
            },
            ParseErrorKind::LineElementTooShort => "line element needs at least 2 vertices".to_owned(),
            ParseErrorKind::PointElementEmpty => "point element needs at least 1 vertex".to_owned(),
            ParseErrorKind::Custom(s) => s.clone(),
        }
    }
}

impl ObjError {
    /// The human-readable description of this error: `I/O error: ` and the
    /// I/O error's own text, or `line <n>: ` and the syntax problem.
    pub fn message(&self) -> (m: String)
        ensures
            match self {
                ObjError::Parse { line, kind } => m@ == parse_error_message(*line, kind@),
                ObjError::Io(e) => exists|t: String|
                    to_string_from_display_ensures::<std::io::Error>(e, t) && m@ == "I/O error: "@
                        + t@,
            },
    {
        match self {
            ObjError::Io(e) => {
                let t = e.to_string();
                let mut m = "I/O error: ".to_owned();
                m.append(t.as_str());
                m
            },
            ObjError::Parse { line, kind } => {
                let mut m = "line ".to_owned();
                let n = decimal_string(*line as u64);
                m.append(n.as_str());
                m.append(": ");
                let k = kind.message();
                m.append(k.as_str());
                m
            },
        }
    }
}

impl From<std::io::Error> for ObjError {
    fn from(e: std::io::Error) -> (r: Self)
        ensures
            r == ObjError::Io(e),
    {
        ObjError::Io(e)
    }
}

impl vstd::std_specs::convert::FromSpecImpl<std::io::Error> for ObjError {
    open spec fn obeys_from_spec() -> bool {
        true
    }

    open spec fn from_spec(e: std::io::Error) -> ObjError {
        ObjError::Io(e)
    }
}

/// The error that the default handler of an unknown directive reports:
/// the directive's prefix, at line `line`.
pub fn unknown_prefix_error(prefix: &str, line: usize) -> (e: ObjError)
    ensures
        e@ == (ObjErrorView::Parse {
            line,
            kind: ParseErrorKindView::UnknownPrefix(prefix@),
        }),
{
    ObjError::Parse { line, kind: ParseErrorKind::UnknownPrefix(prefix.to_owned()) }
}

} // verus!
