//! The error type shared by all modules.

use vstd::prelude::*;

verus! {

/// All failures funnel through here.
#[derive(Debug)]
pub enum MnemosError {
    Storage(String),
    Llm(String),
    Embedding(String),
    NotFound(String),
    Config(String),
    Serde(String),
    Http(String),
    Internal(String),
}

/// An error with its text as characters.
pub enum ErrorView {
    Storage(Seq<char>),
    Llm(Seq<char>),
    Embedding(Seq<char>),
    NotFound(Seq<char>),
    Config(Seq<char>),
    Serde(Seq<char>),
    Http(Seq<char>),
    Internal(Seq<char>),
}

/// The result of a fallible operation of the library.
pub type Outcome<T> = Result<T, MnemosError>;

impl MnemosError {
    pub open spec fn view(&self) -> ErrorView {
        match self {
            MnemosError::Storage(s) => ErrorView::Storage(s@),
            MnemosError::Llm(s) => ErrorView::Llm(s@),
            MnemosError::Embedding(s) => ErrorView::Embedding(s@),
            MnemosError::NotFound(s) => ErrorView::NotFound(s@),
            MnemosError::Config(s) => ErrorView::Config(s@),
            MnemosError::Serde(s) => ErrorView::Serde(s@),
            MnemosError::Http(s) => ErrorView::Http(s@),
            MnemosError::Internal(s) => ErrorView::Internal(s@),
        }
    }

    /// The message shown to a user: the area that failed, then the detail.
    pub fn message(&self) -> (r: String)
        ensures
            r@ == shown(self@),
    {
        let (area, detail) = match self {
            MnemosError::Storage(s) => ("storage: ", s),
            MnemosError::Llm(s) => ("llm: ", s),
            MnemosError::Embedding(s) => ("embedding: ", s),
            MnemosError::NotFound(s) => ("not found: ", s),
            MnemosError::Config(s) => ("config: ", s),
            MnemosError::Serde(s) => ("serialization: ", s),
            MnemosError::Http(s) => ("http: ", s),
            MnemosError::Internal(s) => ("internal: ", s),
        };
        let mut out = area.to_owned();
        out.append(detail.as_str());
        out
    }
}

/// The message of an error.
pub open spec fn shown(e: ErrorView) -> Seq<char> {
    match e {
        ErrorView::Storage(s) => "storage: "@ + s,
        ErrorView::Llm(s) => "llm: "@ + s,
        ErrorView::Embedding(s) => "embedding: "@ + s,
        ErrorView::NotFound(s) => "not found: "@ + s,
        ErrorView::Config(s) => "config: "@ + s,
        ErrorView::Serde(s) => "serialization: "@ + s,
        ErrorView::Http(s) => "http: "@ + s,
        ErrorView::Internal(s) => "internal: "@ + s,
    }
}

/// The message of an error is the area that failed and the detail as it stands.
pub proof fn messages_name_the_area(detail: Seq<char>)
    ensures
        shown(ErrorView::Storage(detail)) == "storage: "@ + detail,
        shown(ErrorView::Llm(detail)) == "llm: "@ + detail,
        shown(ErrorView::Embedding(detail)) == "embedding: "@ + detail,
        shown(ErrorView::NotFound(detail)) == "not found: "@ + detail,
        shown(ErrorView::Config(detail)) == "config: "@ + detail,
        shown(ErrorView::Serde(detail)) == "serialization: "@ + detail,
        shown(ErrorView::Http(detail)) == "http: "@ + detail,
        shown(ErrorView::Internal(detail)) == "internal: "@ + detail,
{
}

} // verus!
