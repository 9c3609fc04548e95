//! The error taxonomy that parsing and the filesystem operations surface.

use vstd::prelude::*;
use vstd::string::StringExecFns;

verus! {

/// An operation's result: its value, or the error that stopped it.
pub type Fallible<T> = Result<T, CocoError>;

/// Every way a command can fail, each with its user-facing message.
#[derive(Debug)]
pub enum CocoError {
    /// A delete command was given no target paths.
    NotFoundTargetMissing,
    /// A target path does not exist; carries the full message, which names
    /// the path.
    PathNotFound(String),
    /// A list target exists but is not a directory; carries the full
    /// message, which names the path.
    NotADirectory(String),
    /// The subcommand name is none of the known commands; carries the full
    /// message, which names the rejected word.
    UnrecognizedCommand(String),
    /// The invocation held no token at all, not even the running binary's
    /// own path.
    EnvironmentUnavailable,
    /// The command is recognised by the grammar but not implemented.
    Unsupported,
}

impl CocoError {
    /// The message that each variant renders.
    pub open spec fn message_view(self) -> Seq<char> {
        match self {
            CocoError::NotFoundTargetMissing => "Delete target not specified."@,
            CocoError::PathNotFound(m) => m@,
            CocoError::NotADirectory(m) => m@,
            CocoError::UnrecognizedCommand(m) => m@,
            CocoError::EnvironmentUnavailable => "The path to the binary directory could not be determined."@,
            CocoError::Unsupported => "This operation is not supported yet."@,
        }
    }

    /// The user-facing message for this error.
    pub fn message(&self) -> (r: String)
        ensures
            r@ == self.message_view(),
    {
        match self {
            CocoError::NotFoundTargetMissing => String::from_str("Delete target not specified."),
            CocoError::PathNotFound(m) => m.clone(),
            CocoError::NotADirectory(m) => m.clone(),
            CocoError::UnrecognizedCommand(m) => m.clone(),
            CocoError::EnvironmentUnavailable => String::from_str(
                "The path to the binary directory could not be determined.",
            ),
            CocoError::Unsupported => String::from_str("This operation is not supported yet."),
        }
    }
}

} // verus!
