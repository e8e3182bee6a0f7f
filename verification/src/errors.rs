use vstd::prelude::*;

verus! {

/// The error taxonomy of the core.  Every fallible operation of the library
/// reports one of these values; the embedding application decides how to
/// surface them.
#[derive(Clone, Copy, Debug, PartialEq, Eq, Structural)]
pub enum CoreError {
    /// The platform-specific server executable is absent from the server
    /// directory.
    ExecutableNotFound,
    /// A read or write on the child process's pipes failed or the pipe is
    /// closed.
    IOFailure,
    /// The child process could not be spawned.
    SpawnFailure,
    /// The content unit to move does not exist at its expected location.
    NotFound,
    /// The content unit is already in the requested enabled/disabled state.
    AlreadyInTargetState,
    /// The file handed to an add operation is not a compressed content
    /// package.
    InvalidFormat,
    /// The file could not be opened as a valid compressed content package.
    UnreadableArchive,
    /// A generic filesystem create/move/delete failure.
    FilesystemFailure,
    /// The server directory holds no configuration file.
    ConfigNotFound,
    /// There is no edited configuration to save.
    NoConfigToSave,
}

impl CoreError {
    /// A short human-readable description, for the embedding application's
    /// status line.
    pub fn message(&self) -> (r: &'static str)
        ensures
            r@.len() > 0,
    {
        proof {
            reveal_strlit("server executable not found");
            reveal_strlit("I/O failure on the process channel");
            reveal_strlit("failed to spawn the server process");
            reveal_strlit("content unit not found");
            reveal_strlit("content unit already in the requested state");
            reveal_strlit("not a compressed content package");
            reveal_strlit("unreadable content package");
            reveal_strlit("filesystem operation failed");
            reveal_strlit("server configuration file not found");
            reveal_strlit("no edited configuration to save");
        }
        match self {
            CoreError::ExecutableNotFound => "server executable not found",
            CoreError::IOFailure => "I/O failure on the process channel",
            CoreError::SpawnFailure => "failed to spawn the server process",
            CoreError::NotFound => "content unit not found",
            CoreError::AlreadyInTargetState => "content unit already in the requested state",
            CoreError::InvalidFormat => "not a compressed content package",
            CoreError::UnreadableArchive => "unreadable content package",
            CoreError::FilesystemFailure => "filesystem operation failed",
            CoreError::ConfigNotFound => "server configuration file not found",
            CoreError::NoConfigToSave => "no edited configuration to save",
        }
    }
}

} // verus!
