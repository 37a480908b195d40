//! The ways a run can fail.
use vstd::prelude::*;

verus! {

/// Why a run stopped.
#[derive(Clone, Copy, Debug, PartialEq, Eq, Structural)]
pub enum OrganizeError {
    /// No target directory was given.
    InvalidArgument,
    /// The target path does not exist or is not a directory.
    NotADirectory,
    /// The metadata of an entry, or its modification day, could not be read.
    MetadataReadFailure,
    /// A day directory could not be created.
    DirectoryCreateFailure,
    /// A file could not be moved into its day directory.
    MoveFailure,
}

impl OrganizeError {
    /// A short description of the failing operation.
    pub fn describe(&self) -> (r: &'static str)
        ensures
            r@ == (match self {
                OrganizeError::InvalidArgument => "no directory argument supplied"@,
                OrganizeError::NotADirectory => "the provided path is not a valid directory"@,
                OrganizeError::MetadataReadFailure => "cannot read the metadata of an entry"@,
                OrganizeError::DirectoryCreateFailure => "cannot create a day directory"@,
                OrganizeError::MoveFailure => "cannot move a file into its day directory"@,
            }),
    {
        match self {
            OrganizeError::InvalidArgument => "no directory argument supplied",
            OrganizeError::NotADirectory => "the provided path is not a valid directory",
            OrganizeError::MetadataReadFailure => "cannot read the metadata of an entry",
            OrganizeError::DirectoryCreateFailure => "cannot create a day directory",
            OrganizeError::MoveFailure => "cannot move a file into its day directory",
        }
    }
}

/// Check the target path before any work: it must exist and be a directory.
pub fn check_target(exists: bool, is_dir: bool) -> (r: Result<(), OrganizeError>)
    ensures
        r is Ok <==> exists && is_dir,
        r is Err ==> r == Err::<(), OrganizeError>(OrganizeError::NotADirectory),
{
    if exists && is_dir {
        Ok(())
    } else {
        Err(OrganizeError::NotADirectory)
    }
}

/// The target directory among the command-line arguments (the first one
/// after the program's name).
pub fn target_from_args(args: &Vec<String>) -> (r: Result<String, OrganizeError>)
    ensures
        r is Ok <==> args@.len() >= 2,
        r is Err ==> r == Err::<String, OrganizeError>(OrganizeError::InvalidArgument),
        r matches Ok(s) ==> s@ == args@[1]@,
{
    if args.len() < 2 {
        Err(OrganizeError::InvalidArgument)
    } else {
        Ok(args[1].clone())
    }
}

} // verus!
