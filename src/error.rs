//! The errors that storage operations report.
use vstd::prelude::*;
use vstd::string::*;

verus! {

/// Why a storage operation failed.
#[derive(Debug)]
pub enum StorageError {
    IOError(String),
    DBError(String),
    HashNotFound(String),
    SerializationError(String),
    InvalidAlgorithm(String),
    ChunkingError(String),
}

impl StorageError {
    /// A human-readable description of the error.
    pub fn message(&self) -> (r: String)
        ensures
            r@ == self.message_spec(),
    {
        let (prefix, detail) = match self {
            StorageError::IOError(s) => ("IO error: ", s),
            StorageError::DBError(s) => ("Database error: ", s),
            StorageError::HashNotFound(s) => ("Hash not found: ", s),
            StorageError::SerializationError(s) => ("Serialization error: ", s),
            StorageError::InvalidAlgorithm(s) => ("Invalid algorithm: ", s),
            StorageError::ChunkingError(s) => ("Chunking error: ", s),
        };
        let mut r = String::from_str(prefix);
        r.append(detail.as_str());
        r
    }

    pub open spec fn message_spec(&self) -> Seq<char> {
        match self {
            StorageError::IOError(s) => "IO error: "@ + s@,
            StorageError::DBError(s) => "Database error: "@ + s@,
            StorageError::HashNotFound(s) => "Hash not found: "@ + s@,
            StorageError::SerializationError(s) => "Serialization error: "@ + s@,
            StorageError::InvalidAlgorithm(s) => "Invalid algorithm: "@ + s@,
            StorageError::ChunkingError(s) => "Chunking error: "@ + s@,
        }
    }
}

} // verus!
