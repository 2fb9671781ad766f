//! Why a run ends in failure.

use vstd::prelude::*;

verus! {

/// The failures of a run. Each one ends the run: none is retried, and
/// nothing is cleaned up after it. The library finds the first six in what
/// it is told. The last two are failures at work: what `Action::failure`
/// makes of an action that could not be carried out.
#[derive(Debug, Clone, Copy, PartialEq, Eq, Structural)]
pub enum Error {
    /// The root directory does not exist.
    PathNotFound,
    /// The root path exists but is not a directory.
    NotADirectory,
    /// A manifest is there but cannot be read as one.
    ManifestParseError,
    /// The media path of an asset has no file name to call its link by.
    MissingFileName,
    /// Two assets would get a link of the same name: the second link could
    /// not be created beside the first.
    NameCollision,
    /// The root directory has no parent to stage the farm in.
    NoStagingDirectory,
    /// A directory could not be removed or created, or a link not made.
    FilesystemMutationError,
    /// A command could not be started.
    ProcessInvocationError,
}

impl Error {
    /// What `message` returns.
    pub open spec fn message_of(self) -> Seq<char> {
        match self {
            Error::PathNotFound => "This path does not exist"@,
            Error::NotADirectory => "This path is not a directory"@,
            Error::ManifestParseError => "A manifest could not be parsed"@,
            Error::MissingFileName => "A wallpaper file has no file name"@,
            Error::NameCollision => "Two wallpaper files share a file name"@,
            Error::NoStagingDirectory => "This path has no parent to stage the wallpapers in"@,
            Error::FilesystemMutationError => "The wallpaper directory could not be rebuilt"@,
            Error::ProcessInvocationError => "A command could not be started"@,
        }
    }

    /// A line for the operator.
    pub fn message(&self) -> (r: String)
        ensures
            r@ == self.message_of(),
    {
        match self {
            Error::PathNotFound => String::from_str("This path does not exist"),
            Error::NotADirectory => String::from_str("This path is not a directory"),
            Error::ManifestParseError => String::from_str("A manifest could not be parsed"),
            Error::MissingFileName => String::from_str("A wallpaper file has no file name"),
            Error::NameCollision => String::from_str("Two wallpaper files share a file name"),
            Error::NoStagingDirectory => String::from_str(
                "This path has no parent to stage the wallpapers in",
            ),
            Error::FilesystemMutationError => String::from_str(
                "The wallpaper directory could not be rebuilt",
            ),
            Error::ProcessInvocationError => String::from_str("A command could not be started"),
        }
    }
}

} // verus!
