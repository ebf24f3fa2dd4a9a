//! What the rules of the task manager refuse.

use vstd::prelude::*;

verus! {

/// A request that the task manager turns down.
#[derive(Debug, Clone, PartialEq, Eq)]
pub enum ComoError {
    /// The data directory lies under the home directory, and none is known.
    HomeDirUnknown,
    /// The data directory lies under the application data directory, and
    /// the environment names none.
    AppDataUnknown,
    /// The page has no task with this identifier.
    TaskNotFound { id: u32 },
    /// A page of this name is there already.
    PageAlreadyExists { name: String },
    /// No page of this name is there.
    PageNotFound { name: String },
    /// The page to delete is the current one.
    CannotDeleteCurrentPage,
}

/// The mathematical value of a [`ComoError`].
pub enum ComoErrorView {
    HomeDirUnknown,
    AppDataUnknown,
    TaskNotFound { id: nat },
    PageAlreadyExists { name: Seq<char> },
    PageNotFound { name: Seq<char> },
    CannotDeleteCurrentPage,
}

impl View for ComoError {
    type V = ComoErrorView;

    open spec fn view(&self) -> ComoErrorView {
        match self {
            ComoError::HomeDirUnknown => ComoErrorView::HomeDirUnknown,
            ComoError::AppDataUnknown => ComoErrorView::AppDataUnknown,
            ComoError::TaskNotFound { id } => ComoErrorView::TaskNotFound { id: *id as nat },
            ComoError::PageAlreadyExists { name } => ComoErrorView::PageAlreadyExists { name: name@ },
            ComoError::PageNotFound { name } => ComoErrorView::PageNotFound { name: name@ },
            ComoError::CannotDeleteCurrentPage => ComoErrorView::CannotDeleteCurrentPage,
        }
    }
}

} // verus!
