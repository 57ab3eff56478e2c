//! The ways in which an operation of the workspace can fail.

use vstd::prelude::*;

verus! {

/// Why an operation failed.
#[derive(Clone, Copy, Debug, PartialEq, Eq, Structural)]
pub enum Error {
    /// A leader sent an update that names no variant.
    InvalidUpdate,
    /// A leader's update of a view names no variant.
    MissingUpdateViewVariant,
    /// A leader's update of a view names no view.
    MissingUpdateViewId,
    /// A leader sent a view without its state.
    MissingViewVariant,
    /// The id of a view names no creator.
    MissingCreator,
    /// No builder is registered for the type of a project item.
    NoItemBuilder,
    /// A message does not say who sent it.
    MissingSender,
    /// The workspace, or the window that shows it, is gone.
    WorkspaceDropped,
    /// The pane is gone.
    PaneDropped,
    /// The pane group does not hold the pane.
    PaneNotFound,
    /// Work that was handed out failed; the number tells which failure it was.
    Failed(u64),
}

/// What an error says.
pub open spec fn error_message(error: Error) -> Seq<char> {
    match error {
        Error::InvalidUpdate => "invalid update"@,
        Error::MissingUpdateViewVariant => "missing update view variant"@,
        Error::MissingUpdateViewId => "missing update view id"@,
        Error::MissingViewVariant => "missing view variant"@,
        Error::MissingCreator => "creator is missing"@,
        Error::NoItemBuilder => "no item builder for project item"@,
        Error::MissingSender => "missing original_sender_id"@,
        Error::WorkspaceDropped => "workspace dropped"@,
        Error::PaneDropped => "pane was dropped"@,
        Error::PaneNotFound => "Pane not found"@,
        Error::Failed(_) => "operation failed"@,
    }
}

impl Error {
    /// What the error says.
    pub fn message(&self) -> (message: &'static str)
        ensures
            message@ == error_message(*self),
    {
        match self {
            Error::InvalidUpdate => "invalid update",
            Error::MissingUpdateViewVariant => "missing update view variant",
            Error::MissingUpdateViewId => "missing update view id",
            Error::MissingViewVariant => "missing view variant",
            Error::MissingCreator => "creator is missing",
            Error::NoItemBuilder => "no item builder for project item",
            Error::MissingSender => "missing original_sender_id",
            Error::WorkspaceDropped => "workspace dropped",
            Error::PaneDropped => "pane was dropped",
            Error::PaneNotFound => "Pane not found",
            Error::Failed(_) => "operation failed",
        }
    }
}

} // verus!
