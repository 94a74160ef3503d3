use vstd::prelude::*;
use std::path::PathBuf;

verus! {

/// The type `std::path::PathBuf`. Nothing is claimed of it: a path is only
/// carried.
#[verifier::external_type_specification]
#[verifier::external_body]
pub struct ExPathBuf(std::path::PathBuf);

/// What can stop a run.
#[derive(Debug)]
pub enum Errors {
    /// The current working directory could not be found.
    CWDError(),
    /// No project file was found in the directory.
    ProjectFileError(PathBuf),
    /// The project file could not be read as one.
    InvalidProjectFile(),
    /// The source directory holds no source file.
    NoInputFiles(),
    /// The directory could not be read.
    ReadDirError(String),
    /// The file could not be read.
    ReadFileError(String),
    /// The source holds text that starts no token: the offending text.
    InvalidToken(String),
}

} // verus!
