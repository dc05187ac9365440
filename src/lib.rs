pub mod error;
pub mod laws;
pub mod ledger;
pub mod params;
pub mod timestamp;
