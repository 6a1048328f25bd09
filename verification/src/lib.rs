//! Loads a personal-data export bundle into a relational store.
//!
//! The library decides everything that is to be read and written: which files of the
//! bundle are read and how they decode into records, and which statements, in which
//! order, load the records into the store. Reading files and running statements is left
//! to the caller.
//!
//! - [`export`], [`wanted`] and [`parser`]: the snapshot of an export, what a parse looks
//!   for in it, and the parse itself.
//! - [`json`] and [`tabular`]: the two notations of the export's files.
//! - [`user`], [`servers`], [`channel`] and [`activity`]: the records, and how each is
//!   decoded.
//! - [`migration`], [`sql`] and [`db`]: the schema of the store, its statements, and the
//!   statements of a load.
//! - [`store`]: a model of the store, and what a load leaves in it.
//! - [`text`]: small building blocks for text.
pub mod activity;
pub mod channel;
pub mod db;
pub mod export;
pub mod json;
pub mod migration;
pub mod parser;
pub mod servers;
pub mod sql;
pub mod store;
pub mod tabular;
pub mod text;
pub mod user;
pub mod wanted;
