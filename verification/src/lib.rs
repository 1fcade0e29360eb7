//! Core of a small desktop tool that keeps one persisted API credential and an
//! ordered, id-addressed list of "leverage" rows, each pairing a market-data
//! provider with one of that provider's data streams.
//!
//! The crate holds the state and the rules: the provider/data-stream catalog,
//! the settings record with its textual document form, and the leverage
//! registry with its create/edit/update/delete protocol. Window handling and
//! file access live outside, in the surrounding application.

pub mod catalog;
pub mod config;
pub mod config_text;
pub mod registry;
pub mod strutil;
