//! The errors the scraper reports.
use vstd::prelude::*;

verus! {

/// Why a page or a record could not be produced.
#[derive(Debug)]
pub enum Error {
    /// Temporary fallback while the codebase matures.
    Generic(String),
    Internal(String),
    InvalidSpider(String),
    /// A request failed before an HTTP status came back; the text is the
    /// HTTP client's description of the failure.
    Reqwest(String),
    HttpStatus { url: String, status: u16 },
    RateLimited { url: String, attempts: usize },
    AircraftNotFound { url: String },
    Io(String),
    Json(String),
    WebDriver(String),
}

/// An [`Error`] with its texts as character sequences.
pub enum ErrorView {
    Generic(Seq<char>),
    Internal(Seq<char>),
    InvalidSpider(Seq<char>),
    Reqwest(Seq<char>),
    HttpStatus { url: Seq<char>, status: u16 },
    RateLimited { url: Seq<char>, attempts: usize },
    AircraftNotFound { url: Seq<char> },
    Io(Seq<char>),
    Json(Seq<char>),
    WebDriver(Seq<char>),
}

impl View for Error {
    type V = ErrorView;

    open spec fn view(&self) -> ErrorView {
        match self {
            Error::Generic(m) => ErrorView::Generic(m@),
            Error::Internal(m) => ErrorView::Internal(m@),
            Error::InvalidSpider(m) => ErrorView::InvalidSpider(m@),
            Error::Reqwest(m) => ErrorView::Reqwest(m@),
            Error::HttpStatus { url, status } => ErrorView::HttpStatus { url: url@, status: *status },
            Error::RateLimited { url, attempts } => ErrorView::RateLimited {
                url: url@,
                attempts: *attempts,
            },
            Error::AircraftNotFound { url } => ErrorView::AircraftNotFound { url: url@ },
            Error::Io(m) => ErrorView::Io(m@),
            Error::Json(m) => ErrorView::Json(m@),
            Error::WebDriver(m) => ErrorView::WebDriver(m@),
        }
    }
}

} // verus!
