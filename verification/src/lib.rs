//! Change detection for periodically fetched course pages.

pub mod canonical;
pub mod error;
pub mod laws;
pub mod login;
pub mod outside;
pub mod run;
pub mod snapshot;
pub mod text;
