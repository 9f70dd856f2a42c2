//! Health monitoring for custom domains served through a CDN: classification of
//! what a domain currently serves, a ledger of consecutive failures, and the
//! rules that decide when a domain is removed.

pub mod cdn;
pub mod classify;
pub mod json;
pub mod ledger;
pub mod removal;
pub mod run;
pub mod text;
