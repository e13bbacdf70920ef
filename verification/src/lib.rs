//! Core of a package registry: packages, their versions, download
//! attribution and ranked search, with every operation verified against a
//! mathematical model of the stores.
//!
//! - [`store`] holds the packages and the versions and keeps their
//!   invariant; [`models`] are the rows.
//! - [`packages`] registers repositories and revisions, idempotently.
//! - [`downloads`] attributes a download to a version and counts it;
//!   [`repo_url`] gives every way of writing a repository's address one key.
//! - [`search`] finds and ranks packages; [`listing`] lists the versions of
//!   a package; [`sorting`], [`paging`] and [`query`] are what both rest on.

pub mod downloads;
pub mod error;
pub mod forms;
pub mod listing;
pub mod lookup;
pub mod models;
pub mod packages;
pub mod paging;
pub mod query;
pub mod repo_url;
pub mod search;
pub mod sorting;
pub mod store;
pub mod text;
