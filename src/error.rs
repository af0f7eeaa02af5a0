use vstd::prelude::*;

verus! {

/// std's `io::ErrorKind`, carried by filesystem errors. Declared with its
/// variants visible, so that the library can name `NotFound` and
/// `AlreadyExists`.
#[verifier::external_type_specification]
pub struct ExErrorKind(std::io::ErrorKind);

/// Errors that the tag store reports.
#[derive(Debug)]
pub enum FtagError {
    /// A filesystem condition: the path is missing, or the database already exists.
    IoError(std::io::ErrorKind),
    /// The database file is absent.
    NoDatabaseError,
    /// The storage engine failed; its own message.
    DatabaseError(String),
    /// A stored tag list is not valid JSON of the expected shape; the reason.
    JsonError(String),
}

impl FtagError {
    /// A message for the user that names the kind of failure.
    pub fn to_string(&self) -> (r: String)
        ensures
            match *self {
                FtagError::IoError(kind) => exists|detail: String|
                    vstd::string::to_string_from_display_ensures::<std::io::ErrorKind>(&kind, detail)
                    && r@ == "IO Error: "@ + detail@,
                FtagError::NoDatabaseError => r@ == "Database error: Database not initialized"@,
                FtagError::DatabaseError(m) => r@ == "Database Error: "@ + m@,
                FtagError::JsonError(m) => r@ == "JSON Error: "@ + m@,
            },
    {
        match self {
            FtagError::IoError(kind) => {
                let mut s = String::from_str("IO Error: ");
                let detail = kind.to_string();
                s.append(detail.as_str());
                s
            },
            FtagError::NoDatabaseError => {
                proof {
                    reveal_strlit("Database error: Database not initialized");
                }
                String::from_str("Database error: Database not initialized")
            },
            FtagError::DatabaseError(m) => {
                let mut s = String::from_str("Database Error: ");
                s.append(m.as_str());
                s
            },
            FtagError::JsonError(m) => {
                let mut s = String::from_str("JSON Error: ");
                s.append(m.as_str());
                s
            },
        }
    }
}

} // verus!
