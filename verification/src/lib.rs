//! A personal catalog of books and comic issues: records with authors,
//! categories, groups, identifiers and free-form custom fields; merging of
//! looked-up volumes; detection of probable series collisions; flat export.

pub mod error;
pub mod identifier;
pub mod text;
pub mod book;
pub mod names;
pub mod numeral;
pub mod outside;
pub mod lookup;
pub mod model;
pub mod catalog;
pub mod listing;
pub mod export;
pub mod settings;
pub mod laws;
