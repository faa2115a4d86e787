//! The failures that end a scrape.

use vstd::prelude::*;

verus! {

/// A field of a container's record.
#[derive(Debug, Clone, Copy, PartialEq, Eq, Structural)]
pub enum Field {
    /// The container's name.
    Container,
    /// The CPU usage, a percentage.
    CpuPercent,
    /// The memory usage, a percentage.
    MemPercent,
    /// The network traffic, a pair of sizes.
    NetIo,
}

/// The record and the field that a malformed text came from.
#[derive(Debug)]
pub struct Origin {
    pub container: String,
    pub field: Field,
}

/// The mathematical content of an [`Origin`].
pub ghost struct OriginView {
    pub container: Seq<char>,
    pub field: Field,
}

impl View for Origin {
    type V = OriginView;

    open spec fn view(&self) -> OriginView {
        OriginView { container: self.container@, field: self.field }
    }
}

/// Why a scrape failed. Every failure ends the scrape: nothing is retried and
/// no value is guessed.
#[derive(Debug)]
pub enum ApiError {
    /// A unit suffix that is none of `B`, `kB`, `MB`, `GB`, `TB`.
    UnrecognizedUnit { unit: String },
    /// A text that is no percentage, no size, no pair of sizes or no metric
    /// name, with the record and field that it came from where they are
    /// known.
    Parse { text: String, origin: Option<Origin> },
    /// A metric name that the registry already holds.
    DuplicateName { name: String },
    /// A failure of the source of the records, carried as its message.
    Source { message: String },
}

/// The mathematical content of an [`ApiError`].
pub ghost enum ApiErrorView {
    UnrecognizedUnit { unit: Seq<char> },
    Parse { text: Seq<char>, origin: Option<OriginView> },
    DuplicateName { name: Seq<char> },
    Source { message: Seq<char> },
}

impl View for ApiError {
    type V = ApiErrorView;

    open spec fn view(&self) -> ApiErrorView {
        match self {
            ApiError::UnrecognizedUnit { unit } => ApiErrorView::UnrecognizedUnit { unit: unit@ },
            ApiError::Parse { text, origin } => ApiErrorView::Parse {
                text: text@,
                origin: match origin {
                    Some(o) => Some(o@),
                    None => None,
                },
            },
            ApiError::DuplicateName { name } => ApiErrorView::DuplicateName { name: name@ },
            ApiError::Source { message } => ApiErrorView::Source { message: message@ },
        }
    }
}

/// The failure of a text that came from no known record.
pub open spec fn parse_failure(text: Seq<char>) -> ApiErrorView {
    ApiErrorView::Parse { text, origin: None }
}

/// The failure of the text of `field` in the record of `container`.
pub open spec fn field_failure(text: Seq<char>, container: Seq<char>, field: Field) -> ApiErrorView {
    ApiErrorView::Parse { text, origin: Some(OriginView { container, field }) }
}

impl ApiError {
    /// The failure of `text`, which came from no known record.
    pub fn parse(text: &str) -> (e: ApiError)
        ensures
            e@ == parse_failure(text@),
    {
        ApiError::Parse { text: text.to_owned(), origin: None }
    }

    /// The failure of `text`, the content of `field` in the record of
    /// `container`.
    pub fn in_field(text: &str, container: &str, field: Field) -> (e: ApiError)
        ensures
            e@ == field_failure(text@, container@, field),
    {
        ApiError::Parse {
            text: text.to_owned(),
            origin: Some(Origin { container: container.to_owned(), field }),
        }
    }

    /// The HTTP status that answers a scrape which failed this way: every
    /// failure is an internal server error.
    pub fn status_code(&self) -> (code: u16)
        ensures
            code == 500,
    {
        500
    }
}

} // verus!
