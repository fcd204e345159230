//! The failures that catalog operations report.

use vstd::prelude::*;
use vstd::string::*;

verus! {

/// Why an operation did not complete. A failed operation leaves the catalog
/// exactly as it was.
#[derive(Debug, Clone, PartialEq, Eq)]
pub enum CatalogError {
    /// The identifier holds neither 10 nor 13 digits.
    InvalidIdentifierLength,
    /// No key for the lookup service is configured.
    ConfigurationMissing,
    /// The lookup service could not be reached or understood; the cause is attached.
    LookupFailed(String),
    /// The lookup found nothing, or no book has the requested id.
    NotFound,
    /// A uniqueness or reference rule of the catalog would be broken.
    ConstraintViolation,
    /// A file could not be read or written; the cause is attached.
    IoFailure(String),
}

/// What an error says to the user; a cause, where there is one, follows the words.
pub open spec fn error_text(e: CatalogError) -> Seq<char> {
    match e {
        CatalogError::InvalidIdentifierLength => "Invalid identifier length"@,
        CatalogError::ConfigurationMissing => "Google Books API key not configured"@,
        CatalogError::LookupFailed(cause) => "Failed to import book: "@ + cause@,
        CatalogError::NotFound => "No results found"@,
        CatalogError::ConstraintViolation => "Constraint violated"@,
        CatalogError::IoFailure(cause) => "File error: "@ + cause@,
    }
}

impl CatalogError {
    /// What this error says to the user.
    pub fn message(&self) -> (r: String)
        ensures
            r@ == error_text(*self),
    {
        match self {
            CatalogError::InvalidIdentifierLength => String::from_str("Invalid identifier length"),
            CatalogError::ConfigurationMissing => String::from_str(
                "Google Books API key not configured",
            ),
            CatalogError::LookupFailed(cause) => {
                let mut text = String::from_str("Failed to import book: ");
                text.append(cause.as_str());
                text
            },
            CatalogError::NotFound => String::from_str("No results found"),
            CatalogError::ConstraintViolation => String::from_str("Constraint violated"),
            CatalogError::IoFailure(cause) => {
                let mut text = String::from_str("File error: ");
                text.append(cause.as_str());
                text
            },
        }
    }
}

} // verus!
