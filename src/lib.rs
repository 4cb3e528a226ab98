//! Resolution and download planning for a hierarchical, HTML-indexed
//! weather-observation catalog.
//!
//! The crate holds the decisions of the harvesting pipeline: which links of a
//! catalog page are followed, which data folder a station resolves to, where a
//! downloaded file is stored, and how per-item results of a stage are combined.
//! Network and disk access stay with the caller, who hands page bodies and
//! outcomes to these functions.

pub mod catalog;
pub mod cli;
pub mod datastore;
pub mod download;
pub mod error;
pub mod header;
pub mod links;
pub mod stage;
pub mod text;
