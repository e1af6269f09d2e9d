//! Errors of containers, versions and configurations.
use vstd::prelude::*;

verus! {

/// What went wrong in an operation on a container.
#[derive(Debug, Clone, PartialEq, Eq)]
pub enum QboxError {
    /// The directory that holds all containers does not exist.
    MissingBoxes(String),
    /// The container's directory does not exist.
    MissingQbox(String),
    /// A container of that name exists already.
    QboxExists(String),
    /// The container has no configuration document.
    MissingConfig(String),
    /// The configuration document could not be read as a configuration.
    ConfigParse(String),
    /// A variable that is not on the allow-list.
    ConfigUndefinedVariable(String),
    /// An allow-listed variable that the environment does not define.
    Variable(String),
    /// A mapping whose source or target is not absolute or ends with `/`;
    /// holds the source and the target as configured.
    InvalidPathStyle(String, String),
    /// A path that must exist does not.
    PathNotFound(String),
    /// The version's directory does not exist.
    VersionNotFound(String),
    /// A version of that name exists already.
    VersionExists(String),
    /// The backup version does not exist.
    BackupNotFound(String),
    /// The name is reserved for the backup version.
    ReservedKeyword(String),
    /// A filesystem operation failed.
    IO(String),
}

/// An error of the filesystem layer.
#[derive(Debug, Clone, PartialEq, Eq)]
pub enum FDError {
    /// The path does not exist.
    NotFound(String),
    /// A filesystem operation failed.
    IO(String),
}

/// The mathematical value of a `QboxError`: the same variant, with the paths
/// and names as character sequences.
pub enum Failure {
    MissingBoxes(Seq<char>),
    MissingQbox(Seq<char>),
    QboxExists(Seq<char>),
    MissingConfig(Seq<char>),
    ConfigParse(Seq<char>),
    ConfigUndefinedVariable(Seq<char>),
    Variable(Seq<char>),
    InvalidPathStyle(Seq<char>, Seq<char>),
    PathNotFound(Seq<char>),
    VersionNotFound(Seq<char>),
    VersionExists(Seq<char>),
    BackupNotFound(Seq<char>),
    ReservedKeyword(Seq<char>),
    IO(Seq<char>),
}

impl View for QboxError {
    type V = Failure;

    open spec fn view(&self) -> Failure {
        match self {
            QboxError::MissingBoxes(p) => Failure::MissingBoxes(p@),
            QboxError::MissingQbox(p) => Failure::MissingQbox(p@),
            QboxError::QboxExists(p) => Failure::QboxExists(p@),
            QboxError::MissingConfig(p) => Failure::MissingConfig(p@),
            QboxError::ConfigParse(m) => Failure::ConfigParse(m@),
            QboxError::ConfigUndefinedVariable(n) => Failure::ConfigUndefinedVariable(n@),
            QboxError::Variable(n) => Failure::Variable(n@),
            QboxError::InvalidPathStyle(s, t) => Failure::InvalidPathStyle(s@, t@),
            QboxError::PathNotFound(p) => Failure::PathNotFound(p@),
            QboxError::VersionNotFound(p) => Failure::VersionNotFound(p@),
            QboxError::VersionExists(p) => Failure::VersionExists(p@),
            QboxError::BackupNotFound(p) => Failure::BackupNotFound(p@),
            QboxError::ReservedKeyword(n) => Failure::ReservedKeyword(n@),
            QboxError::IO(m) => Failure::IO(m@),
        }
    }
}

/// An executable result agrees with a result stated over views.
pub open spec fn agrees<T: View>(r: Result<T, QboxError>, s: Result<T::V, Failure>) -> bool {
    match r {
        Ok(v) => s == Ok::<T::V, Failure>(v@),
        Err(e) => s == Err::<T::V, Failure>(e@),
    }
}

} // verus!
