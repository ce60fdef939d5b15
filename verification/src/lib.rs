//! Turns the logs of the crates that regressed between two toolchains into a
//! report that groups the crates by their most likely causes.
//!
//! The logs arrive one by one and are filed into a [`store::RegressionStore`],
//! one record for each crate. [`cause::classify`] reads the cause of a
//! regression out of the log of the later toolchain, [`aggregate::aggregate`]
//! groups the crates by their causes, and [`report::render`] writes the
//! table, with the maintainers to notify taken from an
//! [`owners::OwnerDirectory`].

pub mod aggregate;
pub mod cause;
pub mod config;
pub mod identity;
pub mod owners;
pub mod regression;
pub mod report;
pub mod store;
pub mod text;
pub mod url;
