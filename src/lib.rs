//! Two-way synchronisation of Org-mode headlines with remote calendars.
//!
//! The library holds the decisions: which headlines and remote records are
//! reconciled, how, in what order, and how credentials are kept fresh.
//! Network, disk and terminal work are left to the caller.
pub mod apply;
pub mod conf;
pub mod error;
pub mod google;
pub mod logger;
pub mod org;
pub mod plan;
pub mod rerun;
pub mod retry;
pub mod session;
pub mod time;
