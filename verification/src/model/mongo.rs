use vstd::prelude::*;

verus! {

/// What can go wrong with the database besides the driver's own errors.
#[derive(Debug, Clone, Copy, PartialEq, Eq, Structural)]
pub enum MongoError {
    /// The connection string names no default database.
    NoDefaultDatabase,
    /// The key of an inserted document is not an object identifier.
    FailedToParseObjectId,
}

impl MongoError {
    /// The error in words.
    pub fn message(&self) -> (text: String)
        ensures
            text@ == match *self {
                MongoError::NoDefaultDatabase => "No default database"@,
                MongoError::FailedToParseObjectId => "Failed to parse object id"@,
            },
    {
        match self {
            MongoError::NoDefaultDatabase => "No default database".to_owned(),
            MongoError::FailedToParseObjectId => "Failed to parse object id".to_owned(),
        }
    }
}

} // verus!
