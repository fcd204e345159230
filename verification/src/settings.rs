//! The settings that an import needs.

use vstd::prelude::*;
use crate::error::CatalogError;

verus! {

/// The settings of the application.
#[derive(Debug, Clone)]
pub struct AppSettings {
    /// The key for the lookup service, once one has been configured.
    pub google_books_api_key: Option<String>,
}

impl Default for AppSettings {
    /// The settings before anything has been configured.
    fn default() -> (r: AppSettings)
        ensures
            r.google_books_api_key is None,
    {
        AppSettings { google_books_api_key: None }
    }
}

impl AppSettings {
    /// The key for the lookup service; its absence is a configuration
    /// error, to be reported before any lookup is made.
    pub fn api_key(&self) -> (r: Result<String, CatalogError>)
        ensures
            match self.google_books_api_key {
                Some(k) => r is Ok && r->Ok_0@ == k@,
                None => r matches Err(CatalogError::ConfigurationMissing),
            },
    {
        match &self.google_books_api_key {
            Some(k) => Ok(k.clone()),
            None => Err(CatalogError::ConfigurationMissing),
        }
    }
}

} // verus!
