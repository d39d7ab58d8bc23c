//! File-management error taxonomy.  The file operations themselves are I/O
//! and live with the caller, which maps what the system reports into these
//! kinds.

use vstd::prelude::*;

verus! {

/// A namespace for the file helpers built around these errors.
pub struct FileManager;

/// How a file operation fails.
#[derive(Debug)]
pub enum FileManagerError {
    FileNotFound,
    PermissionDenied,
    InvalidPath,
    IoError(String),
}

impl FileManagerError {
    /// The user-facing description of this failure.
    pub fn message(&self) -> (r: String)
        ensures
            match self {
                FileManagerError::FileNotFound => r@ == "File not found."@,
                FileManagerError::PermissionDenied => r@ == "Permission denied."@,
                FileManagerError::InvalidPath => r@ == "Invalid file path"@,
                FileManagerError::IoError(m) => r@ == "Erreur : "@ + m@,
            },
    {
        match self {
            FileManagerError::FileNotFound => String::from_str("File not found."),
            FileManagerError::PermissionDenied => String::from_str("Permission denied."),
            FileManagerError::InvalidPath => String::from_str("Invalid file path"),
            FileManagerError::IoError(m) => {
                let mut s = String::from_str("Erreur : ");
                s.append(m.as_str());
                s
            },
        }
    }
}

} // verus!
