//! The token-collection extension: its parameter records, its ledger
//! model, and its dispatcher.

pub mod extension;
pub mod ledger;
pub mod params;
