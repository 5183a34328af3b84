//! The typed failures of the host layer.

use vstd::prelude::*;

verus! {

/// A failure the host reports: what was being done, and the particulars.
#[derive(Debug, PartialEq, Eq)]
pub enum Error {
    /// A form the host does not handle.
    Unsupported { what: String, detail: String },
    /// A value that is present and wrong.
    Invalid { what: String, detail: String },
    /// Something that had to be there and was not.
    NotFound { what: String, detail: String },
}

/// [`Error`] over characters.
#[verifier::ext_equal]
pub enum ErrorView {
    Unsupported { what: Seq<char>, detail: Seq<char> },
    Invalid { what: Seq<char>, detail: Seq<char> },
    NotFound { what: Seq<char>, detail: Seq<char> },
}

impl View for Error {
    type V = ErrorView;

    open spec fn view(&self) -> ErrorView {
        match self {
            Error::Unsupported { what, detail } => ErrorView::Unsupported {
                what: what@,
                detail: detail@,
            },
            Error::Invalid { what, detail } => ErrorView::Invalid { what: what@, detail: detail@ },
            Error::NotFound { what, detail } => ErrorView::NotFound { what: what@, detail: detail@ },
        }
    }
}

impl Clone for Error {
    fn clone(&self) -> (r: Self)
        ensures
            r@ == self@,
    {
        match self {
            Error::Unsupported { what, detail } => Error::Unsupported {
                what: what.clone(),
                detail: detail.clone(),
            },
            Error::Invalid { what, detail } => Error::Invalid {
                what: what.clone(),
                detail: detail.clone(),
            },
            Error::NotFound { what, detail } => Error::NotFound {
                what: what.clone(),
                detail: detail.clone(),
            },
        }
    }
}

/// A failure of a conversation with the build graph: the host's own, or one the
/// graph answered with, passed on untouched.
#[derive(Debug, PartialEq, Eq)]
pub enum Fault<E> {
    Host(Error),
    Graph(E),
}

/// [`Fault`] over characters.
#[verifier::ext_equal]
pub enum FaultView<E> {
    Host(ErrorView),
    Graph(E),
}

impl<E> View for Fault<E> {
    type V = FaultView<E>;

    open spec fn view(&self) -> FaultView<E> {
        match self {
            Fault::Host(e) => FaultView::Host(e@),
            Fault::Graph(e) => FaultView::Graph(*e),
        }
    }
}

/// Errors are seen whole.
pub proof fn law_errors_are_seen_whole<E>(what: String, detail: String, own: Error, graph: E)
    ensures
        (Error::Unsupported { what, detail })@ == (ErrorView::Unsupported {
            what: what@,
            detail: detail@,
        }),
        (Error::Invalid { what, detail })@ == (ErrorView::Invalid { what: what@, detail: detail@ }),
        (Error::NotFound { what, detail })@ == (ErrorView::NotFound { what: what@, detail: detail@ }),
        Fault::<E>::Host(own)@ == FaultView::<E>::Host(own@),
        Fault::<E>::Graph(graph)@ == FaultView::<E>::Graph(graph),
{
}

} // verus!
