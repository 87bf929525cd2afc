//! Mirrors a remote schedule feed into a calendar snapshot and classifies
//! what changed between two snapshots.

pub mod discord_notifier;
pub mod encoding_fix;
pub mod ics_generator;
pub mod laws;
pub mod models;
pub mod sap_url;
pub mod snapshot;
pub mod state;
