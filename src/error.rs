//! Why a feed produced no snapshot.
use vstd::prelude::*;

verus! {

/// A failed poll of a feed.
#[derive(Debug)]
pub enum Error {
    /// The page could not be fetched; the message says why.
    Network(String),
    /// The page was fetched but holds no table with a row.
    NoHtmlTable,
}

pub enum ErrorView {
    Network(Seq<char>),
    NoHtmlTable,
}

impl View for Error {
    type V = ErrorView;

    open spec fn view(&self) -> ErrorView {
        match self {
            Error::Network(m) => ErrorView::Network(m@),
            Error::NoHtmlTable => ErrorView::NoHtmlTable,
        }
    }
}

impl Error {
    /// Whether the failure is expected in normal operation and needs no alert.
    pub fn can_be_skipped(&self) -> (r: bool)
        ensures
            r == (self@ is NoHtmlTable),
    {
        match self {
            Error::NoHtmlTable => true,
            Error::Network(_) => false,
        }
    }
}

/// A scheduler that cannot be built.
#[derive(Clone, Copy, Debug, PartialEq, Eq, Structural)]
pub enum BuilderError {
    /// The time between ticks is zero.
    IntervalNotSet,
    /// Neither feed has a URL.
    UrlNotSet,
}

} // verus!
